use quip_solver_core::adapt::AdaptBounds;
use quip_solver_core::cli::{select_mode, socket_path, solve_exit, start_exit, Mode, StartFault};
use quip_solver_core::driver::SolveError;
use quip_solver_core::{Algorithm, BackendIdentity, CommonArgs, ExitCode, SampleError};

fn args() -> CommonArgs {
    CommonArgs {
        quip_coordinator: None,
        miner_id: None,
        capabilities: false,
        solve: false,
        check: false,
        log_level: "info".to_owned(),
        sweeps_per_beta: None,
    }
}

fn id() -> BackendIdentity {
    BackendIdentity {
        backend: "cpu",
        algorithm: Algorithm::Sa,
        max_nodes: 0,
        max_edges: 0,
        features: &[],
        adapt: AdaptBounds {
            min_sweeps: 1,
            max_sweeps: 1,
            min_reads: 1,
            max_reads: 1,
            reads_solution_min_factor: 0,
            reads_solution_max_factor: 0,
            reads_solution_floor_factor: 0,
        },
    }
}

#[test]
fn two_one_shot_flags_do_not_stand_together() {
    for (capabilities, solve, check) in [(true, true, false), (true, false, true), (false, true, true)] {
        let a = CommonArgs { capabilities, solve, check, ..args() };
        assert!(!a.is_consistent());
    }
    for (capabilities, solve, check) in
        [(true, false, false), (false, true, false), (false, false, true), (false, false, false)]
    {
        let a = CommonArgs { capabilities, solve, check, ..args() };
        assert!(a.is_consistent());
    }
}

#[test]
fn zero_sweeps_per_beta_cannot_be_divided_by() {
    assert!(!CommonArgs { sweeps_per_beta: Some(0), ..args() }.is_consistent());
    assert!(CommonArgs { sweeps_per_beta: Some(1), ..args() }.is_consistent());
}

#[test]
fn flags_select_the_mode() {
    assert!(matches!(select_mode(&args(), &id()), Mode::NoCoordinator));
    let a = CommonArgs { capabilities: true, ..args() };
    assert!(matches!(select_mode(&a, &id()), Mode::Capabilities));
    let a = CommonArgs { solve: true, ..args() };
    assert!(matches!(select_mode(&a, &id()), Mode::Solve));
    let a = CommonArgs { check: true, ..args() };
    assert!(matches!(select_mode(&a, &id()), Mode::Check));
    let a = CommonArgs { quip_coordinator: Some("unix:///run/c.sock".to_owned()), ..args() };
    let Mode::Session { uri, miner_id } = select_mode(&a, &id()) else {
        panic!("a coordinator asks for a session");
    };
    assert_eq!((uri.as_str(), miner_id.as_str()), ("unix:///run/c.sock", "cpu-0"));
    let a = CommonArgs { miner_id: Some("m7".to_owned()), ..a };
    assert!(matches!(select_mode(&a, &id()), Mode::Session { miner_id, .. } if miner_id == "m7"));
}

#[test]
fn endpoints_name_a_socket_path() {
    assert_eq!(socket_path("unix:///run/c.sock"), "/run/c.sock");
    assert_eq!(socket_path("/run/c.sock"), "/run/c.sock");
    assert_eq!(socket_path("unix://"), "");
    assert_eq!(socket_path("unix:"), "unix:");
}

#[test]
fn every_failure_has_its_exit_code() {
    assert_eq!(
        solve_exit(&SolveError::Malformed(String::new())),
        ExitCode::ConfigInvalid
    );
    assert_eq!(
        solve_exit(&SolveError::Sample(SampleError::DeviceBusy)),
        ExitCode::InternalFatal
    );
    assert_eq!(start_exit(StartFault::BadLogLevel).code(), 64);
    assert_eq!(start_exit(StartFault::UnreadableInput).code(), 64);
    assert_eq!(start_exit(StartFault::NoCoordinator).code(), 64);
    assert_eq!(start_exit(StartFault::CannotOpen).code(), 69);
    assert_eq!(start_exit(StartFault::NoRuntime).code(), 70);
    assert_eq!(ExitCode::Clean.code(), 0);
    assert_eq!(ExitCode::TokenRejected.code(), 77);
}
