use quip_solver_core::coefficient::{Coefficient, Fixed, Milli};
use quip_solver_core::sampler::sample_job;
use quip_solver_core::stream::{settle_sampled, skip_abandoned};
use quip_solver_core::{
    CancelToken, IsingGraph, SampleError, SampleParams, Sampler, SamplerResult, StreamJob,
    StreamOutcome, StreamResult, WarmStart,
};

struct OneResultSampler;
impl Sampler<Milli> for OneResultSampler {
    fn sample(
        &self,
        graph: &IsingGraph<Milli>,
        _params: &SampleParams,
    ) -> Result<Vec<SamplerResult>, SampleError> {
        Ok(vec![SamplerResult {
            spins: vec![1i8; graph.num_nodes()],
            energy_milli: 0,
        }])
    }
}

/// The advertised width defaults to the live width, so a backend that
/// overrides neither cannot advertise a number its sampler contradicts.
#[test]
fn the_declared_stream_width_defaults_to_the_live_one() {
    let declared = OneResultSampler::declared_stream_width();
    assert_eq!(
        usize::try_from(declared),
        Ok(OneResultSampler.stream_width())
    );
}

#[test]
fn a_plain_backend_has_no_governor_and_no_cap() {
    assert!(!OneResultSampler::accepts_warm_start());
    assert!(!OneResultSampler.should_throttle());
    assert_eq!(OneResultSampler.max_reads(), u32::MAX);
    assert_eq!(f64::from_bits(OneResultSampler.utilization()), 0.0);
    OneResultSampler.apply_config("anything = 1");
}

fn job<C: Coefficient>(id: u8, watermark: Option<u64>) -> StreamJob<C> {
    StreamJob {
        job_id: vec![id],
        graph: IsingGraph::new(
            vec![C::from_milli(1000), C::from_milli(-1000)],
            vec![C::from_milli(1000)],
            vec![(0, 1)],
        ),
        params: SampleParams::default(),
        watermark,
    }
}

fn run_serially<S: Sampler<C>, C: Coefficient>(
    sampler: &S,
    job: StreamJob<C>,
    warm: Option<WarmStart>,
    before: &CancelToken,
    after: &CancelToken,
) -> StreamResult {
    let sampled = match skip_abandoned(job.job_id.clone(), job.watermark, before) {
        Ok(skipped) => return skipped,
        Err(_) => sample_job(sampler, &job, &warm),
    };
    settle_sampled(job.job_id, job.watermark, sampled, 5, after)
}

#[test]
fn every_job_gives_one_result() {
    for id in 0..5 {
        let fresh = CancelToken::default();
        let r = run_serially(&OneResultSampler, job(id, Some(1)), None, &fresh, &fresh);
        assert_eq!(r.job_id, vec![id]);
        assert_eq!(r.device_access_time_us, 5);
        assert!(matches!(r.outcome, StreamOutcome::Completed(Ok(reads)) if reads[0].spins == [1, 1]));
    }
}

#[test]
fn an_abandoned_job_is_not_sampled() {
    let mut cancel = CancelToken::default();
    cancel.cancel_through(3);
    let stale = skip_abandoned(vec![1], Some(2), &cancel).expect("stale");
    assert!(matches!(stale.outcome, StreamOutcome::Cancelled));
    assert_eq!(stale.device_access_time_us, 0);
    assert_eq!(skip_abandoned(vec![2], Some(5), &cancel).err(), Some(vec![2]));
    assert_eq!(skip_abandoned(vec![2], None, &cancel).err(), Some(vec![2]));
}

fn outcome_after_cancel_during_sample(
    result: Result<Vec<SamplerResult>, SampleError>,
) -> StreamOutcome {
    let mut cancel = CancelToken::default();
    cancel.cancel_through(9);
    settle_sampled(vec![1], Some(5), result, 0, &cancel).outcome
}

#[test]
fn a_cancel_while_sampling_suppresses_the_result() {
    let outcome = outcome_after_cancel_during_sample(Ok(vec![SamplerResult {
        spins: vec![1i8, -1],
        energy_milli: -1000,
    }]));
    assert!(matches!(outcome, StreamOutcome::Cancelled));
}

#[test]
fn a_cancel_while_sampling_still_reports_a_device_fault() {
    let outcome = outcome_after_cancel_during_sample(Err(SampleError::DeviceFault(
        "nvml: GPU 0 lost".to_owned(),
    )));
    assert!(matches!(
        outcome,
        StreamOutcome::Completed(Err(SampleError::DeviceFault(_)))
    ));
}

#[test]
fn a_cancel_while_sampling_suppresses_a_non_fatal_error() {
    let outcome = outcome_after_cancel_during_sample(Err(SampleError::DeviceBusy));
    assert!(matches!(outcome, StreamOutcome::Cancelled));
}

/// Reports which entry point handled each job through the read's energy.
struct WarmEcho;
impl Sampler<Milli> for WarmEcho {
    fn sample(
        &self,
        graph: &IsingGraph<Milli>,
        _params: &SampleParams,
    ) -> Result<Vec<SamplerResult>, SampleError> {
        Ok(vec![SamplerResult {
            spins: vec![1i8; graph.num_nodes()],
            energy_milli: 0,
        }])
    }

    fn accepts_warm_start() -> bool {
        true
    }

    fn sample_warm(
        &self,
        _graph: &IsingGraph<Milli>,
        _params: &SampleParams,
        warm: &WarmStart,
    ) -> Result<Vec<SamplerResult>, SampleError> {
        let first = warm.spins.first().cloned().unwrap_or_default();
        Ok(vec![SamplerResult {
            energy_milli: first.first().copied().map_or(0, i64::from),
            spins: first,
        }])
    }
}

#[test]
fn seeded_jobs_reach_the_warm_entry_point() {
    let warm = Some(WarmStart {
        spins: vec![vec![-1, 1]],
        start_beta_milli: None,
        reversal_s_milli: None,
        reversal_pause_us: None,
    });
    let energy = |warm: Option<WarmStart>| {
        sample_job(&WarmEcho, &job(1, None), &warm).unwrap()[0].energy_milli
    };
    assert_eq!(energy(warm.clone()), -1); // sample_warm
    assert_eq!(energy(None), 0); // sample
    // A backend that only samples ignores the states.
    let reads = sample_job(&OneResultSampler, &job(1, None), &warm).unwrap();
    assert_eq!(reads[0].energy_milli, 0);
}

struct NarrowFixedSampler;
impl Sampler<Fixed<i8, 1>> for NarrowFixedSampler {
    fn sample(
        &self,
        graph: &IsingGraph<Fixed<i8, 1>>,
        _params: &SampleParams,
    ) -> Result<Vec<SamplerResult>, SampleError> {
        Ok(vec![SamplerResult {
            spins: vec![1; graph.num_nodes()],
            energy_milli: 7,
        }])
    }
}

#[test]
fn a_narrow_job_is_sampled() {
    let fresh = CancelToken::default();
    let r = run_serially(&NarrowFixedSampler, job(3, None), None, &fresh, &fresh);
    let StreamOutcome::Completed(Ok(reads)) = r.outcome else {
        panic!("expected reads");
    };
    assert_eq!((reads.len(), reads[0].spins.len(), reads[0].energy_milli), (1, 2, 7));
}
