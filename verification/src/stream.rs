//! Jobs on their way into a sampler and out of it.
use crate::cancel::{abandons, CancelToken};
use crate::error::SampleError;
use crate::ising::{IsingGraph, SampleParams, SamplerResult, WarmStart};
use vstd::prelude::*;

verus! {

/// One job entering the streaming sampler.
#[derive(Debug)]
pub struct StreamJob<C> {
    /// Opaque job id from the coordinator (echoed on Result/Reject).
    pub job_id: Vec<u8>,
    /// Wire-parsed Ising problem for this job.
    pub graph: IsingGraph<C>,
    /// Resolved sampling knobs for this job.
    pub params: SampleParams,
    /// Cancellation watermark for this job, or `None` when the job cannot be
    /// cancelled. The caller decides which jobs carry one.
    pub watermark: Option<u64>,
}

/// One job entering a sampler that takes start states: the plain job, plus its
/// warm start when the coordinator sent one.
#[derive(Debug)]
pub struct WarmStreamJob<C> {
    /// The job, exactly as a plain stream would receive it.
    pub job: StreamJob<C>,
    /// Start states and anneal start point, or `None` for a cold job.
    pub warm_start: Option<WarmStart>,
}

/// Outcome of one streamed job.
#[derive(Debug)]
pub enum StreamOutcome {
    /// Ran to completion, or failed with a device condition.
    Completed(Result<Vec<SamplerResult>, SampleError>),
    /// Abandoned because its watermark was cancelled; the caller has moved on,
    /// so nothing is sent upstream and only the local credit is refunded.
    Cancelled,
}

/// One job leaving the streaming sampler, in completion order.
#[derive(Debug)]
pub struct StreamResult {
    /// Opaque job id, matching the inbound [`StreamJob`].
    pub job_id: Vec<u8>,
    /// Completed samples, a device error, or a cancelled watermark.
    pub outcome: StreamOutcome,
    /// Per-model device/sample time in microseconds.
    pub device_access_time_us: u64,
}

/// A device fault describes the device, not the job, so a cancellation does
/// not hide it.
pub open spec fn outlives_cancel(result: Result<Vec<SamplerResult>, SampleError>) -> bool {
    result matches Err(e) && e is DeviceFault
}

/// What becomes of a job that was sampled, given the cancellation point after
/// the sampler returned.
pub open spec fn settled(
    point: u64,
    watermark: Option<u64>,
    result: Result<Vec<SamplerResult>, SampleError>,
) -> StreamOutcome {
    if abandons(point, watermark) && !outlives_cancel(result) {
        StreamOutcome::Cancelled
    } else {
        StreamOutcome::Completed(result)
    }
}

/// The result of a job that was abandoned before it was sampled, or `None`
/// when it is to be sampled.
pub fn skip_abandoned(job_id: Vec<u8>, watermark: Option<u64>, cancel: &CancelToken) -> (skipped:
    Result<StreamResult, Vec<u8>>)
    ensures
        match skipped {
            Ok(result) => {
                &&& abandons(cancel.point, watermark)
                &&& result.job_id == job_id
                &&& result.outcome is Cancelled
                &&& result.device_access_time_us == 0
            },
            Err(id) => !abandons(cancel.point, watermark) && id == job_id,
        },
{
    if cancel.is_cancelled(watermark) {
        Ok(StreamResult { job_id, outcome: StreamOutcome::Cancelled, device_access_time_us: 0 })
    } else {
        Err(job_id)
    }
}

/// The result of a job that was sampled, given the cancellation point after
/// the sampler returned. A cancel that landed meanwhile abandons the job too,
/// unless the device failed.
pub fn settle_sampled(
    job_id: Vec<u8>,
    watermark: Option<u64>,
    result: Result<Vec<SamplerResult>, SampleError>,
    device_access_time_us: u64,
    cancel: &CancelToken,
) -> (settled: StreamResult)
    ensures
        settled.job_id == job_id,
        settled.device_access_time_us == device_access_time_us,
        settled.outcome == self::settled(cancel.point, watermark, result),
{
    let fatal: bool = match &result {
        Err(e) => e.is_fatal(),
        Ok(_) => false,
    };
    let outcome: StreamOutcome = if cancel.is_cancelled(watermark) && !fatal {
        StreamOutcome::Cancelled
    } else {
        StreamOutcome::Completed(result)
    };
    StreamResult { job_id, outcome, device_access_time_us }
}

/// Samples of an abandoned generation never leave the sampler, and a device
/// fault always does. Every other job comes out as the sampler left it.
pub proof fn law_no_samples_for_an_abandoned_job(
    point: u64,
    watermark: Option<u64>,
    result: Result<Vec<SamplerResult>, SampleError>,
)
    ensures
        abandons(point, watermark) ==> !(settled(point, watermark, result)
            matches StreamOutcome::Completed(Ok(_))),
        outlives_cancel(result) ==> settled(point, watermark, result) == StreamOutcome::Completed(
            result,
        ),
        watermark is None ==> settled(point, watermark, result) == StreamOutcome::Completed(result),
        (watermark matches Some(w) && w > point) ==> settled(point, watermark, result)
            == StreamOutcome::Completed(result),
        (watermark matches Some(w) && w <= point && point > 0 && !(result matches Err(
            SampleError::DeviceFault(_),
        ))) ==> settled(point, watermark, result) == StreamOutcome::Cancelled,
        result matches Err(SampleError::DeviceFault(_)) ==> outlives_cancel(result),
{
}

} // verus!
