use quip_solver_core::coefficient::{Fixed, Milli};
use quip_solver_core::job::SessionTarget;
use quip_solver_core::pending::{hold_job, pending_id, requirement, PendingJob, PendingTable};
use quip_solver_core::{IsingGraph, SampleParams, StreamJob};

fn entry(num_reads: u32) -> PendingJob {
    PendingJob {
        job_id: vec![],
        exact_energy: None,
        num_reads,
        num_sweeps: 1,
        started_ms: 0,
        max_energy_milli: None,
        min_solutions: 0,
        watermark: None,
        lease: None,
    }
}

#[test]
fn held_jobs_come_out_once() {
    let mut t = PendingTable::new();
    t.insert(vec![1], entry(1));
    t.insert(vec![2], entry(2));
    t.insert(vec![3], entry(3));
    t.insert(vec![2], entry(4));
    assert_eq!(t.remove(&[2]).map(|e| e.num_reads), Some(4));
    assert!(t.remove(&[2]).is_none());
    assert_eq!(t.remove(&[1]).map(|e| e.num_reads), Some(1));
    assert_eq!(t.remove(&[3]).map(|e| e.num_reads), Some(3));
    assert!(t.remove(&[9]).is_none());
}

/// A plain job may carry the very bytes of a salt's id.
#[test]
fn a_plain_id_never_equals_a_salt_id() {
    let mut plain = b"lease".to_vec();
    plain.extend_from_slice(&0u64.to_le_bytes());
    let salt = pending_id(b"lease", Some(0));
    assert_ne!(pending_id(&plain, None), salt);
    let mut forged = vec![1u8];
    forged.extend_from_slice(&plain);
    assert_eq!(forged, salt);
    assert_ne!(pending_id(&forged, None), salt);
    assert_ne!(pending_id(b"lease", Some(1)), salt);
    assert_ne!(pending_id(b"lease", Some(256)), pending_id(b"lease", Some(1)));
}

#[test]
fn a_target_without_a_threshold_is_no_requirement() {
    let target = SessionTarget {
        max_energy_milli: -5,
        min_solutions: 3,
        min_diversity_milli: 0,
        max_proof_solutions: 0,
        num_reads: 0,
        num_sweeps: 0,
    };
    assert_eq!(requirement(None), (None, 0));
    assert_eq!(requirement(Some(target)), (Some(-5), 3));
    let open = SessionTarget { max_energy_milli: i64::MAX, ..target };
    assert_eq!(requirement(Some(open)), (None, 3));
}

#[test]
fn a_held_job_keeps_its_own_id() {
    let mut t = PendingTable::new();
    let job: StreamJob<Milli> = StreamJob {
        job_id: b"job-1".to_vec(),
        graph: IsingGraph::new(vec![Fixed(1)], vec![], vec![]),
        params: SampleParams::default(),
        watermark: Some(4),
    };
    let sent = hold_job(&mut t, job, None, 3, 7, None, 99);
    assert_eq!(sent.job_id, pending_id(b"job-1", None));
    assert_eq!(sent.watermark, Some(4));
    let held = t.remove(&sent.job_id).expect("held");
    assert_eq!(held.job_id, b"job-1");
    assert_eq!((held.num_reads, held.num_sweeps, held.started_ms), (3, 7, 99));
    assert_eq!(held.watermark, Some(4));
}
