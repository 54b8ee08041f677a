use quip_solver_core::message::MinerMsg;
use quip_solver_core::job::ExactEnergy;
use quip_solver_core::pending::PendingJob;
use quip_solver_core::writer::{
    attempt_line, count_valid, format_requirement, lowest_energy, short_job_id, Queue, Turn, Writer,
};
use quip_solver_core::{CancelToken, SampleError, SamplerResult, StreamOutcome, StreamResult};

fn read(energy_milli: i64) -> SamplerResult {
    SamplerResult { spins: vec![1, -1], energy_milli }
}

fn completed_result(job_id: u8) -> StreamResult {
    StreamResult {
        job_id: vec![0, job_id],
        outcome: StreamOutcome::Completed(Ok(vec![read(-1000)])),
        device_access_time_us: 0,
    }
}

fn pending_job(watermark: Option<u64>) -> PendingJob {
    PendingJob {
        job_id: vec![7],
        exact_energy: None,
        num_reads: 1,
        num_sweeps: 1,
        started_ms: 0,
        max_energy_milli: None,
        min_solutions: 0,
        watermark,
        lease: None,
    }
}

/// A result whose generation was cancelled must not reach the wire even when
/// the backend produced one.
#[test]
fn a_result_for_a_cancelled_generation_is_dropped() {
    let mut cancel = CancelToken::default();
    cancel.cancel_through(4);
    let mut w = Writer::new();
    let h = w.on_result(completed_result(7), &Some(pending_job(Some(4))), &cancel);
    assert!(matches!(h.out.as_slice(), [MinerMsg::JobRequest(1)]));
    assert_eq!((w.done, h.fatal, h.progress), (0, false, false));
    assert_eq!(w.best_energy_milli, i64::MAX);
}

/// The same job, with nothing cancelled, still reports its result, under the
/// coordinator's own id.
#[test]
fn a_result_for_a_live_generation_is_kept() {
    let mut w = Writer::new();
    let h = w.on_result(completed_result(7), &Some(pending_job(Some(4))), &CancelToken::default());
    let [MinerMsg::Result(r), MinerMsg::JobRequest(1)] = h.out.as_slice() else {
        panic!("a live generation must report its result");
    };
    assert_eq!(r.job_id, vec![7]);
    assert_eq!((r.meta.reads, r.meta.sweeps), (1, 1));
    assert_eq!(r.solutions[0].spins, vec![1]);
    assert_eq!((w.done, w.best_energy_milli), (1, -1000));
}

#[test]
fn a_device_fault_outlives_a_cancel() {
    let mut cancel = CancelToken::default();
    cancel.cancel_through(4);
    let mut w = Writer::new();
    let sr = StreamResult {
        job_id: vec![0, 7],
        outcome: StreamOutcome::Completed(Err(SampleError::DeviceFault("wedged".to_owned()))),
        device_access_time_us: 0,
    };
    let h = w.on_result(sr, &Some(pending_job(Some(4))), &cancel);
    assert!(h.fatal && w.faulted);
    assert!(matches!(h.out.last(), Some(MinerMsg::Fatal(f)) if f.reason == "device fault: wedged"));
}

#[test]
fn nothing_follows_a_device_fault() {
    let mut w = Writer::new();
    let sr = StreamResult {
        job_id: vec![0, 7],
        outcome: StreamOutcome::Completed(Err(SampleError::DeviceFault("wedged".to_owned()))),
        device_access_time_us: 0,
    };
    let h = w.on_result(sr, &None, &CancelToken::default());
    assert!(matches!(h.out.as_slice(), [MinerMsg::Reject(..), MinerMsg::Fatal(f)]
        if f.exit_code == 70 && f.restart_required));
    for results in [Queue::Ready, Queue::Empty, Queue::Finished] {
        for ctrl in [Queue::Ready, Queue::Empty, Queue::Finished] {
            assert_eq!(w.next(results, ctrl), Turn::Stop);
        }
    }
    let mut w = Writer::new();
    w.note_fault();
    assert_eq!(w.next(Queue::Ready, Queue::Ready), Turn::Stop);
}

#[test]
fn lossy_reads_are_scored_on_the_wire_coefficients() {
    let entry = PendingJob {
        exact_energy: Some(ExactEnergy::new(vec![499, -501], vec![1501], vec![(0, 1)])),
        ..pending_job(None)
    };
    let mut w = Writer::new();
    let h = w.on_result(completed_result(7), &Some(entry), &CancelToken::default());
    let [MinerMsg::Result(r), _] = h.out.as_slice() else {
        panic!("a result");
    };
    assert_eq!(r.solutions[0].energy_milli, -501);
    assert_eq!(w.best_energy_milli, -501);
}

#[test]
fn every_tenth_completion_is_worth_a_progress_line() {
    let mut w = Writer::new();
    for n in 1..=25 {
        let h = w.on_result(completed_result(1), &None, &CancelToken::default());
        assert_eq!(h.progress, n % 10 == 0, "after {n}");
    }
}

/// A continuously non-empty result queue must not starve control replies.
#[test]
fn control_replies_wait_for_at_most_one_batch() {
    let mut w = Writer::new();
    let mut served = 0;
    loop {
        match w.next(Queue::Ready, Queue::Ready) {
            Turn::TakeResult => served += 1,
            Turn::DrainControl => break,
            other => panic!("unexpected {other:?}"),
        }
    }
    assert_eq!(served, 8);
    // And the next batch is as long.
    for _ in 0..8 {
        assert_eq!(w.next(Queue::Ready, Queue::Ready), Turn::TakeResult);
    }
    assert_eq!(w.next(Queue::Ready, Queue::Ready), Turn::DrainControl);
}

/// The writer waits, rather than spins, once the read loop is gone while the
/// sampler still works.
#[test]
fn the_writer_parks_when_the_read_loop_closes_first() {
    let mut w = Writer::new();
    assert_eq!(w.next(Queue::Empty, Queue::Empty), Turn::Wait);
    assert_eq!(w.next(Queue::Empty, Queue::Finished), Turn::Wait);
    assert!(!w.ctrl_open);
    assert_eq!(w.next(Queue::Empty, Queue::Finished), Turn::Wait);
    assert_eq!(w.next(Queue::Ready, Queue::Finished), Turn::TakeResult);
    assert_eq!(w.next(Queue::Finished, Queue::Finished), Turn::Stop);
}

#[test]
fn queued_results_are_handled_before_the_writer_stops() {
    let mut w = Writer::new();
    for _ in 0..20 {
        assert_eq!(w.next(Queue::Ready, Queue::Finished), Turn::TakeResult);
    }
    assert_eq!(w.next(Queue::Finished, Queue::Finished), Turn::Stop);
    let mut w = Writer::new();
    assert_eq!(w.next(Queue::Finished, Queue::Ready), Turn::TakeControl);
    assert_eq!(w.next(Queue::Finished, Queue::Empty), Turn::Wait);
    assert_eq!(w.next(Queue::Finished, Queue::Finished), Turn::Stop);
}

#[test]
fn job_ids_are_shortened() {
    assert_eq!(short_job_id(&[]), "");
    assert_eq!(short_job_id(&[0x0a, 0xff]), "0aff");
    assert_eq!(short_job_id(&[1, 2, 3, 4, 5, 6, 7, 8]), "0102030405060708");
    assert_eq!(short_job_id(&[1, 2, 3, 4, 5, 6, 7, 8, 9]), "0102030405060708..");
}

#[test]
fn requirements_read_in_whole_units() {
    assert_eq!(format_requirement(&None), "no target set");
    assert_eq!(format_requirement(&Some(pending_job(None))), "no target set");
    let entry = PendingJob {
        max_energy_milli: Some(-14_536_604),
        min_solutions: 5,
        ..pending_job(None)
    };
    assert_eq!(
        format_requirement(&Some(entry)),
        "requires energy<=-14537, solutions>=5"
    );
}

#[test]
fn an_attempt_is_scored_on_its_threshold() {
    let reads = vec![read(-3000), read(-5000), read(10)];
    assert_eq!(lowest_energy(&reads), Some(-5000));
    assert_eq!(lowest_energy(&[]), None);
    assert_eq!(count_valid(&reads, Some(-3000)), 2);
    assert_eq!(count_valid(&reads, None), 3);
}

#[test]
fn every_attempt_has_a_line() {
    let entry = PendingJob { max_energy_milli: Some(-2000), ..pending_job(None) };
    let mut sr = completed_result(7);
    sr.job_id = vec![0xab];
    sr.outcome = StreamOutcome::Completed(Ok(vec![read(-2500), read(-1000)]));
    sr.device_access_time_us = 1_500_000;
    assert_eq!(
        attempt_line("cpu", &sr, &Some(entry), 648_889),
        "[quip-miner-cpu] attempt ab: energy -3, valid 1/2 | 10m 49s wall, 1.5s device"
    );
    sr.outcome = StreamOutcome::Completed(Ok(vec![]));
    assert_eq!(
        attempt_line("cpu", &sr, &None, 0),
        "[quip-miner-cpu] attempt ab: energy n/a, valid 0/0 | 0ms wall, 1.5s device"
    );
    sr.outcome = StreamOutcome::Completed(Err(SampleError::DeviceBusy));
    assert_eq!(
        attempt_line("cpu", &sr, &None, 5),
        "[quip-miner-cpu] attempt ab: rejected device busy | 5ms wall"
    );
    sr.outcome = StreamOutcome::Cancelled;
    assert_eq!(
        attempt_line("cpu", &sr, &None, 5),
        "[quip-miner-cpu] attempt ab: cancelled after 5ms"
    );
}
