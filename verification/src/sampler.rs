//! The contract that every backend implements.
use crate::coefficient::Coefficient;
use crate::error::SampleError;
use crate::ising::{IsingGraph, SampleParams, SamplerResult, WarmStart};
use crate::stream::StreamJob;
use vstd::prelude::*;

verus! {

/// A backend that samples Ising problems.
///
/// Implementations own their device and algorithm. Only
/// [`sample`](Sampler::sample) is required; the other methods default to a
/// backend without a governor or a cap.
pub trait Sampler<C: Coefficient>: Sized {
    /// Sample one job.
    ///
    /// # Errors
    ///
    /// Returns a [`SampleError`] when the device cannot complete the job.
    /// Use `Capacity` for a size bound, `DeviceBusy` for transient load, and
    /// `DeviceFault` for a state that needs a restart.
    fn sample(&self, graph: &IsingGraph<C>, params: &SampleParams) -> Result<
        Vec<SamplerResult>,
        SampleError,
    >;

    /// Sample one seeded job. Called only when
    /// [`accepts_warm_start`](Sampler::accepts_warm_start) is `true`.
    /// Default: ignore `warm` and call [`sample`](Sampler::sample).
    ///
    /// # Errors
    ///
    /// Same as [`sample`](Sampler::sample).
    fn sample_warm(
        &self,
        graph: &IsingGraph<C>,
        params: &SampleParams,
        warm: &WarmStart,
    ) -> (sampled: Result<Vec<SamplerResult>, SampleError>)
        default_ensures
            call_ensures(Self::sample, (self, graph, params), sampled),
    {
        self.sample(graph, params)
    }

    /// Whether this backend uses warm-start states. Answered without a device.
    #[must_use]
    fn accepts_warm_start() -> (accepts: bool)
        default_ensures
            !accepts,
    {
        false
    }

    /// Number of models the backend keeps in flight.
    fn stream_width(&self) -> (width: usize)
        default_ensures
            width == 1,
    {
        1
    }

    /// The stream width this backend advertises, answered without a device.
    ///
    /// A backend that keeps several models in flight overrides this and
    /// [`stream_width`](Sampler::stream_width) with the same value. One whose
    /// width depends on the opened device declares `0`.
    #[must_use]
    fn declared_stream_width() -> (width: u32)
        default_ensures
            width == 1,
    {
        1
    }

    /// Current utilization for status replies, as the bit pattern of a double.
    fn utilization(&self) -> (bits: u64)
        default_ensures
            bits == 0,
    {
        0
    }

    /// Whether to briefly back off before the next job.
    fn should_throttle(&self) -> (throttle: bool)
        default_ensures
            !throttle,
    {
        false
    }

    /// Largest `num_reads` this backend accepts.
    fn max_reads(&self) -> (reads: u32)
        default_ensures
            reads == u32::MAX,
    {
        u32::MAX
    }

    /// Apply this backend's configuration, the text that the coordinator
    /// forwards verbatim. Default: nothing is configurable.
    fn apply_config(&self, _backend_toml: &str) {
    }
}

/// Sample one job: a seeded one with its start states, and a cold one without.
pub fn sample_job<S: Sampler<C>, C: Coefficient>(
    sampler: &S,
    job: &StreamJob<C>,
    warm: &Option<WarmStart>,
) -> (sampled: Result<Vec<SamplerResult>, SampleError>)
    ensures
        match warm {
            Some(w) => call_ensures(
                S::sample_warm,
                (sampler, &job.graph, &job.params, w),
                sampled,
            ),
            None => call_ensures(S::sample, (sampler, &job.graph, &job.params), sampled),
        },
{
    match warm {
        Some(w) => sampler.sample_warm(&job.graph, &job.params, w),
        None => sampler.sample(&job.graph, &job.params),
    }
}

} // verus!
