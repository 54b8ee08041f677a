use quip_solver_core::adapt::AdaptBounds;
use quip_solver_core::capabilities::{
    advertised_capabilities, capabilities, capabilities_fields, session_capabilities,
    width_is_misdeclared,
};
use quip_solver_core::job::SweepsComplaint;
use quip_solver_core::message::{
    Capabilities, CoordMsg, Job, JobKind, LeaseGraph, MinerMsg, RejectReason, SetTarget, Topology,
    WelcomeFault,
};
use quip_solver_core::session::{
    conclude, coord_msg_name, map_err_to_exit, refuse_job, stream_failed, write_and_map, End, Live,
    Session, SessionError, SessionExit, SessionFailure, Step, StreamPlan, WriteOutcome,
};
use quip_solver_core::{Algorithm, BackendIdentity, ExitCode};

fn test_identity() -> BackendIdentity {
    BackendIdentity {
        backend: "mock",
        algorithm: Algorithm::Sa,
        max_nodes: 100,
        max_edges: 200,
        features: &["streaming"],
        adapt: AdaptBounds {
            min_sweeps: 1,
            max_sweeps: 1,
            min_reads: 1,
            max_reads: 1,
            reads_solution_min_factor: 1,
            reads_solution_max_factor: 1,
            reads_solution_floor_factor: 0,
        },
    }
}

#[test]
fn capabilities_constructor_matches_the_printer() {
    let id = test_identity();
    let c = capabilities(&id, 4);
    let v = capabilities_fields(c.clone());
    assert_eq!(v.backend, c.backend);
    assert_eq!(v.algorithm, c.algorithm);
    assert_eq!(v.max_nodes, c.max_nodes);
    assert_eq!(v.max_edges, c.max_edges);
    assert_eq!(v.protocol_version, c.protocol_version);
    assert_eq!(v.stream_width, c.stream_width);
    assert_eq!(v.features, vec!["streaming"]);
    assert_eq!(v.supported_kinds, vec!["ISING_SAMPLE"]);
    assert_eq!(c.supported_kinds, vec![JobKind::IsingSample]);
    assert_eq!(c.features, vec!["streaming"]);
    assert_eq!(c.native_topology_hash, None);
}

#[test]
fn native_topology_hash_serializes_as_base64_string() {
    let mut c = capabilities(&test_identity(), 1);
    c.native_topology_hash = Some(vec![1, 2, 3]);
    let v = capabilities_fields(c);
    assert_eq!(v.native_topology_hash.as_deref(), Some("AQID"));
}

#[test]
fn base64_is_padded_and_standard() {
    let encode = |bytes: Vec<u8>| {
        let mut c = capabilities(&test_identity(), 1);
        c.native_topology_hash = Some(bytes);
        capabilities_fields(c).native_topology_hash.unwrap()
    };
    assert_eq!(encode(vec![]), "");
    assert_eq!(encode(vec![0xff]), "/w==");
    assert_eq!(encode(vec![0xfb, 0xef]), "++8=");
}

#[test]
fn the_advertised_message_names_every_kind() {
    let v = capabilities_fields(advertised_capabilities(&test_identity(), 1, true));
    assert_eq!(v.backend, "mock");
    assert_eq!(v.algorithm, "sa");
    assert_eq!(v.supported_kinds, vec!["ISING_SAMPLE", "ISING_GENERATE"]);
    assert_eq!(v.protocol_version, 2);
    assert_eq!(v.encodings, vec!["COEFFICIENT_ENCODING_I32"]);
    assert_eq!(v.generators, vec!["GENERATOR_ALGORITHM_BLAKE3_CHACHA8_V1"]);
    assert_eq!(v.features, vec!["streaming", "initial-spins"]);
}

/// `--capabilities` and the in-session reply are one message, so they carry
/// one `stream_width`.
#[test]
fn both_capabilities_answers_carry_the_declared_stream_width() {
    let id = test_identity();
    // What GetCapabilities replies with.
    let reply = advertised_capabilities(&id, 8, false);
    assert_eq!(reply.stream_width, 8);
    assert_eq!(session_capabilities(&id, 8, 8, false).stream_width, 8);
    // What `--capabilities` prints, from the same function.
    assert_eq!(capabilities_fields(reply.clone()).stream_width, 8);
    // And the features the identity declares travel with it.
    assert_eq!(reply.features, vec!["streaming"]);
}

/// A backend whose width depends on the opened device declares 0.
#[test]
fn a_device_dependent_width_declaration_resolves_in_session() {
    let id = test_identity();
    let flag = advertised_capabilities(&id, 0, false);
    assert_eq!(flag.stream_width, 0);
    let reply = session_capabilities(&id, 0, 6, false);
    assert_eq!(reply.stream_width, 6);
}

#[test]
fn only_a_wrong_declaration_is_reported() {
    assert!(!width_is_misdeclared(0, 6));
    assert!(!width_is_misdeclared(6, 6));
    assert!(width_is_misdeclared(1, 6));
}

/// Every `SessionError` must reach its documented exit code.
#[test]
fn session_errors_round_trip_through_a_boxed_error() {
    for (err, want) in [
        (SessionError::MissingToken, ExitCode::TokenRejected),
        (SessionError::BadWelcome(0), ExitCode::ConfigInvalid),
        (SessionError::BadWelcome(2), ExitCode::ConfigInvalid),
    ] {
        assert_eq!(map_err_to_exit(&SessionFailure::Session(err)), want, "for {err:?}");
    }
}

#[test]
fn session_exits_carry_their_own_code() {
    for code in [
        ExitCode::TokenRejected,
        ExitCode::InternalFatal,
        ExitCode::ConfigInvalid,
    ] {
        let exit = SessionExit { code, detail: "coordinator went away".to_owned() };
        assert_eq!(map_err_to_exit(&SessionFailure::Exit(exit)), code);
    }
}

#[test]
fn the_type_erased_fallback_recovers_the_documented_codes() {
    let code = |text: &str| map_err_to_exit(&SessionFailure::Other(text.to_owned()));
    assert_eq!(code("QUIP_SESSION_TOKEN is not set"), ExitCode::TokenRejected);
    assert_eq!(code("the session token was refused"), ExitCode::TokenRejected);
    assert_eq!(code("unexpected protocol version 9"), ExitCode::ConfigInvalid);
    // Anything else is an internal fault, not a guess.
    assert_eq!(code("transport closed"), ExitCode::InternalFatal);
}

#[test]
fn write_and_map_treats_broken_pipe_as_clean_and_other_errors_as_fatal() {
    assert_eq!(write_and_map(WriteOutcome::BrokenPipe), ExitCode::Clean);
    assert_eq!(write_and_map(WriteOutcome::Written), ExitCode::Clean);
    assert_eq!(write_and_map(WriteOutcome::Failed), ExitCode::InternalFatal);
}

fn live(id: &BackendIdentity) -> Live<'_> {
    Live {
        miner_id: "m-0",
        id,
        declared_width: 1,
        accepts_warm_start: false,
        jobs_done: 3,
        utilization: 0.5_f64.to_bits(),
    }
}

fn topology() -> Topology {
    Topology {
        hash: vec![7; 32],
        nodes: vec![10, 20],
        edges: None,
        allowed_h_milli: vec![],
        allowed_j_milli: vec![],
    }
}

fn lease_graph() -> LeaseGraph {
    LeaseGraph {
        num_nodes: 2,
        edges: vec![],
        allowed_h_milli: vec![],
        allowed_j_milli: vec![],
    }
}

fn plain_job(kind: Option<JobKind>) -> Job {
    Job {
        job_id: vec![1],
        kind,
        generation: 0,
        deadline_ms: 0,
        ising: None,
        generator: None,
    }
}

fn target() -> SetTarget {
    SetTarget {
        max_energy_milli: -1,
        min_solutions: 2,
        min_diversity_milli: 3,
        max_proof_solutions: 4,
        num_reads: 5,
        num_sweeps: 6,
    }
}

fn welcomed(width: usize) -> Session {
    let id = test_identity();
    let mut s = Session::new(width);
    let step = s.handle(Some(CoordMsg::Welcome(None)), &live(&id));
    assert!(matches!(step, Step::Send(out) if out.is_empty()));
    assert!(s.welcome_seen);
    s
}

#[test]
fn configure_answers_ready_and_a_grant() {
    let id = test_identity();
    let mut s = welcomed(3);
    let step = s.handle(
        Some(CoordMsg::Configure {
            backend_toml: "num_sweeps = 128".to_owned(),
            queue_depth: 2,
        }),
        &live(&id),
    );
    let Step::Configure(text, wrong, out) = step else {
        panic!("the backend gets its configuration");
    };
    assert_eq!(text, "num_sweeps = 128");
    assert_eq!(wrong, None);
    assert!(matches!(out.as_slice(), [MinerMsg::Ready, MinerMsg::JobRequest(6)]));
    assert_eq!(s.num_sweeps, 128);
}

#[test]
fn a_configuration_that_cannot_be_used_is_complained_of() {
    let id = test_identity();
    for (text, want) in [
        ("not valid toml at all {{{", Some(SweepsComplaint::Malformed)),
        ("num_sweeps = 0", Some(SweepsComplaint::Unusable)),
        ("num_sweeps = -1", Some(SweepsComplaint::Unusable)),
        ("num_sweeps = \"64\"", Some(SweepsComplaint::Unusable)),
        ("other = 1", None),
        ("", None),
    ] {
        let mut s = welcomed(1);
        let msg = CoordMsg::Configure { backend_toml: text.to_owned(), queue_depth: 1 };
        let Step::Configure(_, wrong, _) = s.handle(Some(msg), &live(&id)) else {
            panic!("the backend gets its configuration");
        };
        assert_eq!(wrong, want, "{text}");
        assert_eq!(s.num_sweeps, 64);
    }
    assert_eq!(
        SweepsComplaint::Malformed.to_string(),
        "config: backend_toml does not parse as TOML; using num_sweeps = 64"
    );
    assert_eq!(
        SweepsComplaint::Unusable.to_string(),
        "config: num_sweeps is not a positive integer; using 64"
    );
}

#[test]
fn a_grant_covers_the_prefetch_and_fits_the_queue() {
    let plan = StreamPlan::new(0);
    assert_eq!((plan.width, plan.prefetch, plan.cap), (1, 2, 8));
    assert_eq!(plan.grant(0), 2);
    assert_eq!(plan.grant(5), 5);
    assert_eq!(plan.grant(480), 8);
    let plan = StreamPlan::new(16);
    assert_eq!((plan.width, plan.prefetch, plan.cap), (16, 32, 32));
    assert_eq!(plan.grant(480), 32);
    assert_eq!(StreamPlan::new(usize::MAX).prefetch, usize::MAX);
    assert_eq!(StreamPlan::new(1 << 31).grant(0), u32::MAX);
}

#[test]
fn nothing_is_acted_on_before_welcome() {
    let id = test_identity();
    for msg in [
        CoordMsg::Configure { backend_toml: String::new(), queue_depth: 1 },
        CoordMsg::Topology(topology(), Ok(lease_graph())),
        CoordMsg::SetTarget(target()),
        CoordMsg::Job(plain_job(Some(JobKind::IsingSample))),
        CoordMsg::Cancel(3),
        CoordMsg::Ping,
        CoordMsg::GetCapabilities,
        CoordMsg::Shutdown(0),
    ] {
        let mut s = Session::new(1);
        let msg = Some(msg);
        let name = coord_msg_name(&msg);
        let Step::Stop(out, End::Exit(exit)) = s.handle(msg, &live(&id)) else {
            panic!("{name} must end the session");
        };
        let want = format!("coordinator sent {name} before Welcome");
        assert_eq!((exit.code, exit.detail.as_str()), (ExitCode::ConfigInvalid, want.as_str()));
        let [MinerMsg::Fatal(fatal)] = out.as_slice() else {
            panic!("the coordinator learns why");
        };
        assert_eq!((fatal.exit_code, fatal.reason.as_str()), (64, want.as_str()));
        assert!(!fatal.restart_required);
        assert!(s.topology.is_none() && s.target.is_none() && s.cancel.abandoned() == 0);
    }
    let mut s = Session::new(1);
    assert!(matches!(s.handle(None, &live(&id)), Step::Send(out) if out.is_empty()));
}

#[test]
fn a_bad_welcome_is_explained() {
    let id = test_identity();
    let mut s = Session::new(1);
    let fault = WelcomeFault { version: 9, text: "unexpected protocol version 9".to_owned() };
    let Step::Stop(out, End::BadWelcome(9)) = s.handle(Some(CoordMsg::Welcome(Some(fault))), &live(&id))
    else {
        panic!("a bad Welcome ends the session");
    };
    assert!(matches!(out.as_slice(), [MinerMsg::Fatal(f)]
        if f.exit_code == 64 && f.reason == "unexpected protocol version 9"));
    assert!(!s.welcome_seen);
    let failure = conclude(None, None, End::BadWelcome(9), false).unwrap_err();
    assert_eq!(map_err_to_exit(&failure), ExitCode::ConfigInvalid);
}

#[test]
fn status_acknowledges_a_cancel_and_answers_a_ping() {
    let id = test_identity();
    let mut s = welcomed(1);
    let abandoned = |step: Step| match step {
        Step::Send(out) => match out.as_slice() {
            [MinerMsg::Status(status)] => {
                assert_eq!(status.miner_id, "m-0");
                assert_eq!(status.jobs_done, 3);
                assert_eq!(status.utilization, 0.5_f64.to_bits());
                status.abandoned_generation
            }
            _ => panic!("one status"),
        },
        _ => panic!("one status"),
    };
    assert_eq!(abandoned(s.handle(Some(CoordMsg::Ping), &live(&id))), 0);
    assert_eq!(abandoned(s.handle(Some(CoordMsg::Cancel(7)), &live(&id))), 7);
    assert_eq!(abandoned(s.handle(Some(CoordMsg::Cancel(3)), &live(&id))), 7);
    assert_eq!(abandoned(s.handle(Some(CoordMsg::Ping), &live(&id))), 7);
}

#[test]
fn jobs_are_routed_by_their_kind() {
    let id = test_identity();
    let mut s = welcomed(1);
    for (kind, lease) in [
        (Some(JobKind::IsingSample), false),
        (Some(JobKind::IsingGenerate), true),
        (None, false),
    ] {
        let step = s.handle(Some(CoordMsg::Job(plain_job(kind))), &live(&id));
        assert_eq!(matches!(step, Step::Lease(_)), lease);
        assert_eq!(matches!(step, Step::Job(_)), !lease);
    }
}

#[test]
fn topology_and_target_are_remembered() {
    let id = test_identity();
    let mut s = welcomed(1);
    let step = s.handle(Some(CoordMsg::Topology(topology(), Ok(lease_graph()))), &live(&id));
    assert!(matches!(step, Step::Send(out) if out.is_empty()));
    assert_eq!(s.topology.as_ref().map(|c| c.num_nodes()), Some(2));
    assert_eq!(s.lease_topology.as_ref().map(|c| c.hash.clone()), Some(vec![7; 32]));
    let _ = s.handle(Some(CoordMsg::SetTarget(target())), &live(&id));
    assert_eq!(s.target.map(|t| (t.min_solutions, t.num_sweeps)), Some((2, 6)));
}

#[test]
fn capabilities_are_answered_in_session() {
    let id = test_identity();
    let mut s = welcomed(6);
    let l = Live { declared_width: 0, ..live(&id) };
    let Step::Send(out) = s.handle(Some(CoordMsg::GetCapabilities), &l) else {
        panic!("one reply");
    };
    let [MinerMsg::Capabilities(Capabilities { stream_width, .. })] = out.as_slice() else {
        panic!("one reply");
    };
    assert_eq!(*stream_width, 6);
}

#[test]
fn shutdown_sets_the_grace() {
    let id = test_identity();
    for (asked, want) in [(0, 5000), (200, 200)] {
        let mut s = welcomed(1);
        let step = s.handle(Some(CoordMsg::Shutdown(asked)), &live(&id));
        assert!(matches!(step, Step::Stop(out, End::Shutdown) if out.is_empty()));
        assert_eq!(s.grace_ms, want);
    }
}

#[test]
fn a_lost_coordinator_is_not_a_clean_end() {
    let before = Session::new(1).stream_closed();
    assert_eq!(before.code, ExitCode::TokenRejected);
    assert_eq!(
        before.detail,
        "coordinator closed the session stream before Welcome; the session token was rejected"
    );
    let after = welcomed(1).stream_closed();
    assert_eq!(after.code, ExitCode::InternalFatal);
    assert_eq!(after.detail, "coordinator closed the session stream without Shutdown");
    assert_eq!(stream_failed(true, "denied").code, ExitCode::TokenRejected);
    let failed = stream_failed(false, "reset");
    assert_eq!(failed.code, ExitCode::InternalFatal);
    assert_eq!(failed.detail, "session stream failed: reset");
}

#[test]
fn a_session_ends_by_its_worst_failure() {
    let detail = |outcome: Result<(), SessionFailure>| match outcome {
        Ok(()) => "clean".to_owned(),
        Err(SessionFailure::Exit(e)) => e.detail,
        Err(SessionFailure::Session(e)) => format!("{e:?}"),
        Err(SessionFailure::Other(text)) => text,
    };
    let exit = || {
        End::Exit(SessionExit { code: ExitCode::ConfigInvalid, detail: "protocol".to_owned() })
    };
    let s = |text: &str| Some(text.to_owned());
    assert_eq!(
        detail(conclude(s("boom"), s("writer"), exit(), true)),
        "sampler thread panicked: boom"
    );
    assert_eq!(detail(conclude(None, s("writer"), exit(), true)), "writer");
    assert_eq!(detail(conclude(None, None, exit(), true)), "protocol");
    assert_eq!(
        detail(conclude(None, None, End::BadWelcome(3), true)),
        "BadWelcome(3)"
    );
    assert_eq!(
        detail(conclude(None, None, End::WriterGone, true)),
        "device fault: the backend reported an unrecoverable state"
    );
    assert_eq!(
        detail(conclude(None, None, End::Shutdown, true)),
        "device fault: the backend reported an unrecoverable state"
    );
    assert_eq!(
        detail(conclude(None, None, End::WriterGone, false)),
        "outbound writer stopped before Shutdown"
    );
    let lost = conclude(None, None, End::WriterGone, false).unwrap_err();
    assert_eq!(map_err_to_exit(&lost), ExitCode::InternalFatal);
    assert_eq!(detail(conclude(None, None, End::Shutdown, false)), "clean");
}

#[test]
fn a_refused_job_gives_back_its_credit() {
    let out = refuse_job(MinerMsg::Reject(vec![4], RejectReason::Expired));
    assert!(matches!(
        out.as_slice(),
        [MinerMsg::Reject(_, RejectReason::Expired), MinerMsg::JobRequest(1)]
    ));
}

#[test]
fn every_message_has_a_name() {
    assert_eq!(coord_msg_name(&None), "unset");
    assert_eq!(coord_msg_name(&Some(CoordMsg::Welcome(None))), "Welcome");
    assert_eq!(coord_msg_name(&Some(CoordMsg::Ping)), "Ping");
}
