//! From a received job to a sampler job, and from a finished one to its
//! replies.
use crate::adapt::{
    adapt_params, budget, cap_count, capped_count, larger, law_budget_at_the_ends,
    law_budget_stays_in_bounds, law_more_solutions_raise_the_budget, saturating_product,
    saturating_times, AdaptBounds, AdaptParams, Difficulty, ONE,
};
use crate::coefficient::Coefficient;
use crate::encoding::law_exact_types_lose_nothing;
use crate::ising::{Algorithm, IsingGraph, SampleParams, SamplerResult, WarmStart};
use crate::job::{
    lemma_same_values, parse_ising, parse_warm_start, parsed, pick_param, picked, represents,
    warm_start, ExactEnergy, MilliProblem, ParsedIsing, SessionTarget, TopologyCache,
};
use crate::message::{
    credits_in, packed_solutions, replies, Fatal, IsingProblem, Job, JobKind, JobResult, MinerMsg,
    RejectReason, Reply, SamplerMeta, Solution, Status,
};
use crate::session::{BackendIdentity, ExitCode};
use crate::stream::{StreamJob, StreamOutcome, StreamResult};
use crate::wire::{
    are_spins, encode_spins_packed, law_i32_codec_round_trip, law_spins_survive_packing,
    le_bytes_of, packed_from, unpacked_spins,
};
use vstd::prelude::*;
use vstd::string::*;

verus! {

/// Reads the wall clock with `std::time::SystemTime::elapsed` on the Unix
/// epoch, in milliseconds. `None` when the clock is before the epoch, which a
/// machine that has not set its clock yet reports. The time is free.
#[verifier::external_body]
pub(crate) fn now_unix_ms() -> (now: Option<u64>) {
    match std::time::UNIX_EPOCH.elapsed() {
        Ok(d) => Some(d.as_millis() as u64),
        Err(_) => None,
    }
}

/// Draws eight bytes with `getrandom::getrandom`. `None` when the operating
/// system's generator failed. The seed is free.
#[verifier::external_body]
pub(crate) fn os_seed() -> (seed: Option<u64>) {
    let mut bytes = [0u8; 8];
    match getrandom::getrandom(&mut bytes) {
        Ok(()) => Some(u64::from_le_bytes(bytes)),
        Err(_) => None,
    }
}

/// A reply that refuses one job.
pub fn reject(job_id: Vec<u8>, reason: RejectReason) -> (msg: MinerMsg)
    ensures
        msg@ == Reply::Reject(job_id@, reason),
{
    MinerMsg::Reject(job_id, reason)
}

/// A status reply. `utilization` is the bit pattern of a double.
pub fn status_msg(
    miner_id: &str,
    jobs_done: u64,
    utilization: u64,
    abandoned_generation: u64,
) -> (msg: MinerMsg)
    ensures
        msg@ == (Reply::Status {
            miner_id: miner_id@,
            utilization,
            jobs_done,
            abandoned_generation,
        }),
{
    MinerMsg::Status(
        Status { miner_id: miner_id.to_owned(), utilization, jobs_done, abandoned_generation },
    )
}

/// A session target and how hard it is for the job at hand.
#[derive(Clone, Copy, Debug)]
pub struct Aim {
    pub target: SessionTarget,
    pub difficulty: Difficulty,
}

/// A job whose wire fields describe a problem that this solver takes.
#[derive(Debug)]
pub struct Admitted<C> {
    pub job_id: Vec<u8>,
    pub generation: u64,
    pub problem: IsingProblem,
    pub graph: IsingGraph<C>,
    pub exact_energy: Option<ExactEnergy>,
}

/// The deadline has passed, or cannot be judged for want of a clock. A
/// deadline of `0` means none.
pub open spec fn past_deadline(deadline_ms: u64, now: Option<u64>) -> bool {
    deadline_ms != 0 && match now {
        None => true,
        Some(t) => deadline_ms < t,
    }
}

/// The problem that a job asks to sample, or why it is refused.
pub open spec fn admission(
    job: Job,
    now: Option<u64>,
    max_nodes: u32,
    max_edges: u32,
    cache: Option<&TopologyCache>,
) -> Result<MilliProblem, RejectReason> {
    if job.kind != Some(JobKind::IsingSample) {
        Err(RejectReason::UnsupportedKind)
    } else if past_deadline(job.deadline_ms, now) {
        Err(RejectReason::Expired)
    } else {
        match job.ising {
            None => Err(RejectReason::Malformed),
            Some(problem) => parsed(problem, max_nodes, max_edges, cache),
        }
    }
}

/// `outcome` is the answer to `job` at the time `now`.
pub open spec fn admitted_at<C: Coefficient>(
    outcome: Result<Admitted<C>, MinerMsg>,
    job: Job,
    now: Option<u64>,
    id: BackendIdentity,
    cache: Option<&TopologyCache>,
) -> bool {
    match (outcome, admission(job, now, id.max_nodes, id.max_edges, cache)) {
        (Ok(a), Ok(want)) => {
            &&& a.job_id == job.job_id
            &&& a.generation == job.generation
            &&& job.ising == Some(a.problem)
            &&& represents(a.graph, a.exact_energy, want)
        },
        (Err(msg), Err(reason)) => msg@ == Reply::Reject(job.job_id@, reason),
        _ => false,
    }
}

/// Validate one job at the time `now`, which is `None` when there is no
/// usable clock.
pub fn admit_job_at<C: Coefficient>(
    job: Job,
    now: Option<u64>,
    id: &BackendIdentity,
    cache: Option<&TopologyCache>,
) -> (outcome: Result<Admitted<C>, MinerMsg>)
    requires
        C::scale() > 0,
    ensures
        admitted_at(outcome, job, now, *id, cache),
{
    match job.kind {
        Some(JobKind::IsingSample) => {},
        _ => {
            return Err(reject(job.job_id, RejectReason::UnsupportedKind));
        },
    }
    if job.deadline_ms != 0 {
        let expired: bool = match now {
            None => true,
            Some(t) => job.deadline_ms < t,
        };
        if expired {
            return Err(reject(job.job_id, RejectReason::Expired));
        }
    }
    let Job { job_id, kind, generation, deadline_ms, ising, generator } = job;
    match ising {
        None => Err(reject(job_id, RejectReason::Malformed)),
        Some(problem) => match parse_ising::<C>(&problem, id.max_nodes, id.max_edges, cache) {
            Err(reason) => Err(reject(job_id, reason)),
            Ok(ParsedIsing { graph, exact_energy }) => Ok(
                Admitted { job_id, generation, problem, graph, exact_energy },
            ),
        },
    }
}

/// Validate one job now. The clock is read only for a job with a deadline.
pub fn admit_job<C: Coefficient>(
    job: Job,
    id: &BackendIdentity,
    cache: Option<&TopologyCache>,
) -> (outcome: Result<Admitted<C>, MinerMsg>)
    requires
        C::scale() > 0,
    ensures
        exists|now: Option<u64>| #[trigger] admitted_at(outcome, job, now, *id, cache),
        job.deadline_ms == 0 ==> admitted_at(outcome, job, None, *id, cache),
{
    let now: Option<u64> = if job.deadline_ms != 0 {
        now_unix_ms()
    } else {
        None
    };
    admit_job_at(job, now, id, cache)
}

/// What bounds the reads of one job, and whether start states are used.
#[derive(Clone, Copy, Debug)]
pub struct SamplerLimits {
    /// Largest `num_reads` the backend accepts.
    pub max_reads: u32,
    /// Whether the backend uses warm-start states.
    pub accepts_warm_start: bool,
}

/// The budget that a session target gives, if there is one.
pub open spec fn adapted(aim: Option<Aim>, bounds: AdaptBounds) -> Option<AdaptParams> {
    match aim {
        None => None,
        Some(a) => Some(
            budget(a.difficulty, larger(a.target.min_solutions as int, 1) as u32, bounds),
        ),
    }
}

/// The reads of one job: its own number, else the target's, else the adapted
/// one, else one.
pub open spec fn resolved_reads(own: u32, aim: Option<Aim>, bounds: AdaptBounds) -> u32 {
    picked(
        own,
        match aim {
            Some(a) => a.target.num_reads,
            None => 0,
        },
        match adapted(aim, bounds) {
            Some(p) => Some(p.num_reads),
            None => None,
        },
        1,
    )
}

/// Gibbs converges slower per sweep, so it runs twice the sweeps.
pub open spec fn sweeps_for(algorithm: Algorithm, sweeps: u32) -> u32 {
    match algorithm {
        Algorithm::Sa => sweeps,
        Algorithm::Gibbs => saturating_product(sweeps, 2) as u32,
    }
}

/// The sweeps of one job: its own number, else the target's, else the adapted
/// one, else the configured one, doubled for Gibbs.
pub open spec fn resolved_sweeps(
    own: u32,
    aim: Option<Aim>,
    bounds: AdaptBounds,
    default_sweeps: u32,
    algorithm: Algorithm,
) -> u32 {
    sweeps_for(
        algorithm,
        picked(
            own,
            match aim {
                Some(a) => a.target.num_sweeps,
                None => 0,
            },
            match adapted(aim, bounds) {
                Some(p) => Some(p.num_sweeps),
                None => None,
            },
            default_sweeps,
        ),
    )
}

/// Double the sweeps of a Gibbs job.
pub fn scale_sweeps(algorithm: Algorithm, sweeps: u32) -> (scaled: u32)
    ensures
        scaled == sweeps_for(algorithm, sweeps),
{
    match algorithm {
        Algorithm::Sa => sweeps,
        Algorithm::Gibbs => saturating_times(sweeps, 2),
    }
}

/// The reads and sweeps of a job with its own numbers `own`.
pub fn resolve_budget(
    own: (u32, u32),
    aim: Option<Aim>,
    id: &BackendIdentity,
    default_sweeps: u32,
) -> (resolved: (u32, u32))
    ensures
        resolved.0 == resolved_reads(own.0, aim, id.adapt),
        resolved.1 == resolved_sweeps(own.1, aim, id.adapt, default_sweeps, id.algorithm),
{
    match aim {
        None => (
            pick_param(own.0, 0, None, 1),
            scale_sweeps(id.algorithm, pick_param(own.1, 0, None, default_sweeps)),
        ),
        Some(a) => {
            let min_solutions: u32 = if a.target.min_solutions >= 1 {
                a.target.min_solutions
            } else {
                1
            };
            let params: AdaptParams = adapt_params(a.difficulty, min_solutions, &id.adapt);
            (
                pick_param(own.0, a.target.num_reads, Some(params.num_reads), 1),
                scale_sweeps(
                    id.algorithm,
                    pick_param(own.1, a.target.num_sweeps, Some(params.num_sweeps), default_sweeps),
                ),
            )
        },
    }
}

/// A validated job ready to sample, or an immediate reject reply.
#[derive(Debug)]
pub enum Prepared<C> {
    /// Reject reply to send now (no sampling).
    Reject(MinerMsg),
    /// Hand to the streaming sampler; `num_reads`/`num_sweeps` are the resolved
    /// values, carried so [`finalize_result`] can report them.
    Sample {
        job: StreamJob<C>,
        /// Decoded start states, `Some` only for a seeded job on a sampler that
        /// uses them.
        warm_start: Option<WarmStart>,
        /// Wire coefficients when conversion can lose information.
        exact_energy: Option<ExactEnergy>,
        num_reads: u32,
        num_sweeps: u32,
    },
}

/// Generation `0` marks a job that a reseed never cancels.
pub open spec fn watermark_of(generation: u64) -> Option<u64> {
    if generation != 0 {
        Some(generation)
    } else {
        None
    }
}

/// The watermark of a job.
pub fn watermark(generation: u64) -> (mark: Option<u64>)
    ensures
        mark == watermark_of(generation),
{
    if generation != 0 {
        Some(generation)
    } else {
        None
    }
}

/// `prepared` is what becomes of an admitted job once its seed is drawn.
/// A seed of `None` stands for a generator that failed.
pub open spec fn prepared_with<C: Coefficient>(
    prepared: Prepared<C>,
    admitted: Admitted<C>,
    seed: Option<u64>,
    id: BackendIdentity,
    default_sweeps: usize,
    sweeps_per_beta: Option<usize>,
    aim: Option<Aim>,
    limits: SamplerLimits,
) -> bool {
    let reads = resolved_reads(admitted.problem.num_reads, aim, id.adapt);
    let sweeps = resolved_sweeps(
        admitted.problem.num_sweeps,
        aim,
        id.adapt,
        capped_count(default_sweeps),
        id.algorithm,
    );
    let start = warm_start(
        admitted.problem,
        admitted.graph.h@.len() as int,
        reads as int,
        limits.accepts_warm_start,
    );
    let refused = |reason: RejectReason| prepared matches Prepared::Reject(msg) && msg@
        == Reply::Reject(admitted.job_id@, reason);
    match start {
        Err(reason) => refused(reason),
        Ok(states) => if reads > limits.max_reads {
            refused(RejectReason::TooLarge)
        } else {
            match seed {
                None => refused(RejectReason::Overloaded),
                Some(s) => {
                    &&& prepared matches Prepared::Sample {
                        job,
                        warm_start,
                        exact_energy,
                        num_reads,
                        num_sweeps,
                    }
                    &&& job.job_id == admitted.job_id
                    &&& job.graph == admitted.graph
                    &&& job.params == (SampleParams {
                        num_reads: reads as usize,
                        num_sweeps: sweeps as usize,
                        sweeps_per_beta: match sweeps_per_beta {
                            Some(n) => n,
                            None => 1,
                        },
                        beta_range: None,
                        seed: s,
                    })
                    &&& job.watermark == watermark_of(admitted.generation)
                    &&& match (warm_start, states) {
                        (None, None) => true,
                        (Some(w), Some(want)) => w@ == want,
                        _ => false,
                    }
                    &&& exact_energy == admitted.exact_energy
                    &&& num_reads == reads
                    &&& num_sweeps == sweeps
                },
            }
        },
    }
}

/// Everything of an admitted job that does not need a seed.
struct Settled {
    num_reads: u32,
    num_sweeps: u32,
    warm_start: Option<WarmStart>,
}

fn settle<C: Coefficient>(
    admitted: &Admitted<C>,
    id: &BackendIdentity,
    default_sweeps: usize,
    aim: Option<Aim>,
    limits: SamplerLimits,
) -> (settled: Result<Settled, RejectReason>)
    ensures
        ({
            let reads = resolved_reads(admitted.problem.num_reads, aim, id.adapt);
            let start = warm_start(
                admitted.problem,
                admitted.graph.h@.len() as int,
                reads as int,
                limits.accepts_warm_start,
            );
            match settled {
                Err(reason) => match start {
                    Err(want) => reason == want,
                    Ok(_) => reads > limits.max_reads && reason == RejectReason::TooLarge,
                },
                Ok(s) => {
                    &&& s.num_reads == reads
                    &&& reads <= limits.max_reads
                    &&& s.num_sweeps == resolved_sweeps(
                        admitted.problem.num_sweeps,
                        aim,
                        id.adapt,
                        capped_count(default_sweeps),
                        id.algorithm,
                    )
                    &&& match (s.warm_start, start) {
                        (None, Ok(None)) => true,
                        (Some(w), Ok(Some(want))) => w@ == want,
                        _ => false,
                    }
                },
            }
        }),
{
    let (num_reads, num_sweeps): (u32, u32) = resolve_budget(
        (admitted.problem.num_reads, admitted.problem.num_sweeps),
        aim,
        id,
        cap_count(default_sweeps),
    );
    match parse_warm_start(
        &admitted.problem,
        admitted.graph.num_nodes(),
        num_reads as usize,
        limits.accepts_warm_start,
    ) {
        Err(reason) => Err(reason),
        Ok(warm_start) => if num_reads > limits.max_reads {
            Err(RejectReason::TooLarge)
        } else {
            Ok(Settled { num_reads, num_sweeps, warm_start })
        },
    }
}

fn with_seed<C: Coefficient>(
    admitted: Admitted<C>,
    settled: Settled,
    seed: Option<u64>,
    sweeps_per_beta: Option<usize>,
) -> (prepared: Prepared<C>)
    ensures
        match seed {
            None => prepared matches Prepared::Reject(msg) && msg@ == Reply::Reject(
                admitted.job_id@,
                RejectReason::Overloaded,
            ),
            Some(s) => {
                &&& prepared matches Prepared::Sample {
                    job,
                    warm_start,
                    exact_energy,
                    num_reads,
                    num_sweeps,
                }
                &&& job.job_id == admitted.job_id
                &&& job.graph == admitted.graph
                &&& job.params == (SampleParams {
                    num_reads: settled.num_reads as usize,
                    num_sweeps: settled.num_sweeps as usize,
                    sweeps_per_beta: match sweeps_per_beta {
                        Some(n) => n,
                        None => 1,
                    },
                    beta_range: None,
                    seed: s,
                })
                &&& job.watermark == watermark_of(admitted.generation)
                &&& warm_start == settled.warm_start
                &&& exact_energy == admitted.exact_energy
                &&& num_reads == settled.num_reads
                &&& num_sweeps == settled.num_sweeps
            },
        },
{
    match seed {
        // The job is fine, this miner just cannot serve it right now. That is
        // the reason that asks the coordinator to place it elsewhere.
        None => Prepared::Reject(reject(admitted.job_id, RejectReason::Overloaded)),
        Some(s) => {
            let per_beta: usize = match sweeps_per_beta {
                Some(n) => n,
                None => 1,
            };
            let params: SampleParams = SampleParams {
                num_reads: settled.num_reads as usize,
                num_sweeps: settled.num_sweeps as usize,
                sweeps_per_beta: per_beta,
                beta_range: None,
                seed: s,
            };
            let mark: Option<u64> = watermark(admitted.generation);
            Prepared::Sample {
                job: StreamJob {
                    job_id: admitted.job_id,
                    graph: admitted.graph,
                    params,
                    watermark: mark,
                },
                warm_start: settled.warm_start,
                exact_energy: admitted.exact_energy,
                num_reads: settled.num_reads,
                num_sweeps: settled.num_sweeps,
            }
        },
    }
}

/// Resolve an admitted job's budget with a seed that was drawn for it. `None`
/// stands for a generator that failed.
pub fn prepare_job_seeded<C: Coefficient>(
    admitted: Admitted<C>,
    seed: Option<u64>,
    id: &BackendIdentity,
    default_sweeps: usize,
    sweeps_per_beta: Option<usize>,
    aim: Option<Aim>,
    limits: SamplerLimits,
) -> (prepared: Prepared<C>)
    ensures
        prepared_with(
            prepared,
            admitted,
            seed,
            *id,
            default_sweeps,
            sweeps_per_beta,
            aim,
            limits,
        ),
{
    match settle(&admitted, id, default_sweeps, aim, limits) {
        Err(reason) => Prepared::Reject(reject(admitted.job_id, reason)),
        Ok(settled) => with_seed(admitted, settled, seed, sweeps_per_beta),
    }
}

/// Resolve an admitted job's budget (per-job override, then `SetTarget`
/// override, then adapted, then default) and seed it from the operating system.
///
/// Two jobs issued in the same millisecond must not sample identically, so
/// there is no other source for the seed: a job without one is refused.
pub fn prepare_job<C: Coefficient>(
    admitted: Admitted<C>,
    id: &BackendIdentity,
    default_sweeps: usize,
    sweeps_per_beta: Option<usize>,
    aim: Option<Aim>,
    limits: SamplerLimits,
) -> (prepared: Prepared<C>)
    ensures
        exists|seed: Option<u64>| #[trigger]
            prepared_with(
                prepared,
                admitted,
                seed,
                *id,
                default_sweeps,
                sweeps_per_beta,
                aim,
                limits,
            ),
{
    match settle(&admitted, id, default_sweeps, aim, limits) {
        Err(reason) => {
            let prepared: Prepared<C> = Prepared::Reject(reject(admitted.job_id, reason));
            assert(prepared_with(
                prepared,
                admitted,
                None,
                *id,
                default_sweeps,
                sweeps_per_beta,
                aim,
                limits,
            ));
            prepared
        },
        Ok(settled) => {
            let seed: Option<u64> = os_seed();
            let prepared: Prepared<C> = with_seed(admitted, settled, seed, sweeps_per_beta);
            assert(prepared_with(
                prepared,
                admitted,
                seed,
                *id,
                default_sweeps,
                sweeps_per_beta,
                aim,
                limits,
            ));
            prepared
        },
    }
}

/// `solutions` are `reads`, packed, in order.
pub open spec fn packs_reads(solutions: Seq<(Seq<u8>, i64)>, reads: Seq<SamplerResult>) -> bool {
    &&& solutions.len() == reads.len()
    &&& forall|i: int|
        0 <= i < reads.len() ==> packed_from((#[trigger] solutions[i]).0, reads[i].spins@)
            && solutions[i].1 == reads[i].energy_milli
}

/// Pack reads for the wire.
pub fn pack_reads(reads: &[SamplerResult]) -> (solutions: Vec<Solution>)
    ensures
        packs_reads(packed_solutions(solutions@), reads@),
{
    let mut solutions: Vec<Solution> = Vec::new();
    let mut i: usize = 0;
    while i < reads.len()
        invariant
            i <= reads@.len(),
            solutions@.len() == i,
            forall|k: int|
                0 <= k < i ==> packed_from((#[trigger] solutions@[k]).spins@, reads@[k].spins@)
                    && solutions@[k].energy_milli == reads@[k].energy_milli,
        decreases reads@.len() - i,
    {
        solutions.push(
            Solution {
                spins: encode_spins_packed(reads[i].spins.as_slice()),
                energy_milli: reads[i].energy_milli,
            },
        );
        i += 1;
    }
    assert forall|k: int| 0 <= k < reads@.len() implies packed_from(
        (#[trigger] packed_solutions(solutions@)[k]).0,
        reads@[k].spins@,
    ) && packed_solutions(solutions@)[k].1 == reads@[k].energy_milli by {
        assert(packed_from(solutions@[k].spins@, reads@[k].spins@));
    }
    solutions
}

/// The replies to one finished job.
pub open spec fn finalized(
    out: Seq<Reply>,
    sr: StreamResult,
    num_reads: u32,
    num_sweeps: u32,
) -> bool {
    match sr.outcome {
        StreamOutcome::Cancelled => out == seq![Reply::Credits(1)],
        StreamOutcome::Completed(Err(e)) => out == seq![
            Reply::Reject(sr.job_id@, e.reason()),
            if e is DeviceFault {
                Reply::Fatal { exit_code: 70, reason: e.text(), restart_required: true }
            } else {
                Reply::Credits(1)
            },
        ],
        StreamOutcome::Completed(Ok(reads)) => {
            &&& out.len() == 2
            &&& out[0] matches Reply::Result { job_id, salt, nonce, solutions, meta }
            &&& job_id == sr.job_id@
            &&& salt.len() == 0
            &&& nonce.len() == 0
            &&& packs_reads(solutions, reads@)
            &&& meta == (SamplerMeta {
                reads: num_reads,
                sweeps: num_sweeps,
                device_access_time_us: sr.device_access_time_us,
                qpu_access_us: 0,
            })
            &&& out[1] == Reply::Credits(1)
        },
    }
}

/// The counter after one more finished job, stopping at the largest number.
pub open spec fn one_more(done: u64) -> u64 {
    if done == u64::MAX {
        done
    } else {
        (done + 1) as u64
    }
}

/// Turn a [`StreamResult`] into the replies: a `Result` on completion, a
/// `Reject` on sampler error, or nothing upstream when the job's generation was
/// cancelled. Every path refunds one credit so the coordinator's
/// consume-on-dispatch pool never leaks a slot, except a device fault, which
/// ends the session instead of asking for more work.
pub fn finalize_result(
    sr: StreamResult,
    num_reads: u32,
    num_sweeps: u32,
    jobs_done: &mut u64,
) -> (out: Vec<MinerMsg>)
    ensures
        finalized(replies(out@), sr, num_reads, num_sweeps),
        *final(jobs_done) == if sr.outcome matches StreamOutcome::Completed(Ok(_)) {
            one_more(*old(jobs_done))
        } else {
            *old(jobs_done)
        },
{
    let StreamResult { job_id, outcome, device_access_time_us } = sr;
    let mut out: Vec<MinerMsg> = Vec::new();
    match outcome {
        StreamOutcome::Cancelled => {
            out.push(MinerMsg::JobRequest(1));
            assert(replies(out@) =~= seq![Reply::Credits(1)]);
        },
        StreamOutcome::Completed(Err(err)) => {
            let reason: RejectReason = err.to_reject_reason();
            out.push(reject(job_id, reason));
            if err.is_fatal() {
                out.push(
                    MinerMsg::Fatal(
                        Fatal {
                            exit_code: ExitCode::InternalFatal.code(),
                            reason: err.to_string(),
                            restart_required: true,
                        },
                    ),
                );
            } else {
                out.push(MinerMsg::JobRequest(1));
            }
            assert(replies(out@) =~= seq![
                Reply::Reject(job_id@, err.reason()),
                if err is DeviceFault {
                    Reply::Fatal { exit_code: 70, reason: err.text(), restart_required: true }
                } else {
                    Reply::Credits(1)
                },
            ]);
        },
        StreamOutcome::Completed(Ok(reads)) => {
            let solutions: Vec<Solution> = pack_reads(reads.as_slice());
            if *jobs_done < u64::MAX {
                *jobs_done = *jobs_done + 1;
            }
            out.push(
                MinerMsg::Result(
                    JobResult {
                        job_id,
                        salt: Vec::new(),
                        nonce: Vec::new(),
                        solutions,
                        meta: SamplerMeta {
                            reads: num_reads,
                            sweeps: num_sweeps,
                            device_access_time_us,
                            qpu_access_us: 0,
                        },
                    },
                ),
            );
            out.push(MinerMsg::JobRequest(1));
        },
    }
    out
}

/// Every finished job gives back exactly one credit, except one that ends the
/// session with a device fault, which gives back none.
pub proof fn law_one_credit_per_finished_job(
    out: Seq<Reply>,
    sr: StreamResult,
    num_reads: u32,
    num_sweeps: u32,
)
    requires
        finalized(out, sr, num_reads, num_sweeps),
    ensures
        credits_in(out) == if sr.outcome matches StreamOutcome::Completed(Err(e))
            && e is DeviceFault {
            0int
        } else {
            1
        },
{
    reveal_with_fuel(credits_in, 3);
    if out.len() == 2 {
        assert(out.drop_last().drop_last() =~= Seq::empty());
        assert(out.drop_last().last() == out[0]);
    } else {
        assert(out.drop_last() =~= Seq::empty());
    }
}

/// What a job asks for itself always wins: its reads and sweeps are its own
/// numbers whenever it gives them.
pub proof fn law_a_jobs_own_numbers_win(
    reads: u32,
    sweeps: u32,
    aim: Option<Aim>,
    bounds: AdaptBounds,
    default_sweeps: u32,
    algorithm: Algorithm,
)
    ensures
        reads != 0 ==> resolved_reads(reads, aim, bounds) == reads,
        sweeps != 0 ==> resolved_sweeps(sweeps, aim, bounds, default_sweeps, algorithm)
            == sweeps_for(algorithm, sweeps),
        aim is None && reads == 0 ==> resolved_reads(reads, aim, bounds) == 1,
        aim is None && sweeps == 0 ==> resolved_sweeps(
            sweeps,
            aim,
            bounds,
            default_sweeps,
            algorithm,
        ) == sweeps_for(algorithm, default_sweeps),
        (aim matches Some(a) && a.target.num_reads != 0 && reads == 0) ==> resolved_reads(
            reads,
            aim,
            bounds,
        ) == aim->0.target.num_reads,
        (aim matches Some(a) && a.target.num_sweeps != 0 && sweeps == 0) ==> resolved_sweeps(
            sweeps,
            aim,
            bounds,
            default_sweeps,
            algorithm,
        ) == sweeps_for(algorithm, aim->0.target.num_sweeps),
{
}

/// A job and a target without reads of their own get at least the backend's
/// smallest number of reads, and at least as many for every solution that the
/// target wants as the backend's factors say, as far as 32 bits go. A target
/// that wants no solutions counts as one that wants one.
pub proof fn law_reads_cover_the_wanted_solutions(aim: Aim, bounds: AdaptBounds)
    requires
        aim.difficulty.pattern() <= ONE,
        aim.target.num_reads == 0,
    ensures
        ({
            let reads = resolved_reads(0, Some(aim), bounds);
            &&& reads >= bounds.min_reads
            &&& bounds.reads_solution_min_factor > 0 ==> (reads >= aim.target.min_solutions
                * bounds.reads_solution_min_factor || reads == u32::MAX)
            &&& reads >= bounds.reads_solution_min_factor
            &&& reads >= aim.target.min_solutions * bounds.reads_solution_floor_factor || reads
                == u32::MAX
            &&& reads >= bounds.reads_solution_floor_factor
        }),
{
    let wanted = larger(aim.target.min_solutions as int, 1) as u32;
    law_budget_stays_in_bounds(aim.difficulty, wanted, bounds);
    let (few, floor) = (bounds.reads_solution_min_factor, bounds.reads_solution_floor_factor);
    assert(wanted * few >= few && wanted * floor >= floor) by (nonlinear_arith)
        requires
            wanted >= 1,
    ;
    assert(wanted * few >= aim.target.min_solutions * few) by (nonlinear_arith)
        requires
            wanted >= aim.target.min_solutions,
    ;
    assert(wanted * floor >= aim.target.min_solutions * floor) by (nonlinear_arith)
        requires
            wanted >= aim.target.min_solutions,
    ;
}

/// What a job gets when neither it nor its target gives numbers is fixed by the
/// backend's bounds and the solutions wanted: at the easiest difficulty exactly
/// the largest of the lower bounds, at the hardest exactly the largest of all
/// of them, and in between nothing outside.
pub proof fn law_reads_span_the_bounds(aim: Aim, bounds: AdaptBounds)
    requires
        aim.difficulty.pattern() <= ONE,
        aim.target.num_reads == 0,
        aim.target.min_solutions >= 1,
    ensures
        ({
            let reads = resolved_reads(0, Some(aim), bounds) as int;
            let wanted = aim.target.min_solutions;
            let cut = |n: int|
                if n > u32::MAX {
                    u32::MAX as int
                } else {
                    n
                };
            let floor = cut(wanted * bounds.reads_solution_floor_factor);
            let low = cut(wanted * bounds.reads_solution_min_factor);
            let high = if bounds.reads_solution_min_factor > 0 {
                cut(wanted * bounds.reads_solution_max_factor)
            } else {
                0
            };
            &&& reads >= floor && reads >= low && reads >= bounds.min_reads
            &&& aim.difficulty.pattern() == 0 ==> reads == floor || reads == low || reads
                == bounds.min_reads
            &&& aim.difficulty.pattern() == ONE ==> reads >= high && reads >= bounds.max_reads
            &&& aim.difficulty.pattern() == ONE ==> reads == floor || reads == low || reads
                == bounds.min_reads || reads == high || reads == bounds.max_reads
            &&& reads <= floor || reads <= low || reads <= bounds.min_reads || reads <= high
                || reads <= bounds.max_reads
        }),
{
    let wanted = aim.target.min_solutions;
    assert(larger(wanted as int, 1) as u32 == wanted);
    law_budget_stays_in_bounds(aim.difficulty, wanted, bounds);
    law_budget_at_the_ends(aim.difficulty, wanted, bounds);
    assert(wanted * 0 == 0) by (nonlinear_arith);
    assert(wanted * bounds.reads_solution_min_factor >= 0) by (nonlinear_arith);
    assert(wanted * bounds.reads_solution_max_factor >= 0) by (nonlinear_arith);
    assert(wanted * bounds.reads_solution_floor_factor >= 0) by (nonlinear_arith);
}

/// A target that wants more solutions never gets fewer reads, and what it wants
/// does not change the sweeps.
pub proof fn law_more_solutions_get_no_fewer_reads(few: Aim, many: Aim, bounds: AdaptBounds)
    requires
        few.difficulty.pattern() <= ONE,
        many.difficulty == few.difficulty,
        many.target.num_reads == few.target.num_reads,
        many.target.num_sweeps == few.target.num_sweeps,
        few.target.min_solutions <= many.target.min_solutions,
    ensures
        forall|own: u32| #[trigger]
            resolved_reads(own, Some(few), bounds) <= resolved_reads(own, Some(many), bounds),
        forall|own: u32, default_sweeps: u32, algorithm: Algorithm| #[trigger]
            resolved_sweeps(own, Some(few), bounds, default_sweeps, algorithm) == resolved_sweeps(
                own,
                Some(many),
                bounds,
                default_sweeps,
                algorithm,
            ),
{
    let a = larger(few.target.min_solutions as int, 1) as u32;
    let b = larger(many.target.min_solutions as int, 1) as u32;
    law_more_solutions_raise_the_budget(few.difficulty, a, b, bounds);
}

/// A job and a target without sweeps of their own get sweeps between the
/// backend's bounds: the lower one at the easiest difficulty and the larger of
/// the two at the hardest. Gibbs runs twice that, as far as 32 bits go.
pub proof fn law_sweeps_span_the_bounds(aim: Aim, bounds: AdaptBounds, default_sweeps: u32)
    requires
        aim.difficulty.pattern() <= ONE,
        aim.target.num_sweeps == 0,
    ensures
        ({
            let sweeps = resolved_sweeps(0, Some(aim), bounds, default_sweeps, Algorithm::Sa);
            let doubled = resolved_sweeps(0, Some(aim), bounds, default_sweeps, Algorithm::Gibbs);
            &&& sweeps >= bounds.min_sweeps
            &&& sweeps <= bounds.min_sweeps || sweeps <= bounds.max_sweeps
            &&& aim.difficulty.pattern() == 0 ==> sweeps == bounds.min_sweeps
            &&& aim.difficulty.pattern() == ONE ==> sweeps >= bounds.max_sweeps && (sweeps
                == bounds.min_sweeps || sweeps == bounds.max_sweeps)
            &&& doubled == 2 * sweeps || (doubled == u32::MAX && 2 * sweeps > u32::MAX)
        }),
{
    let wanted = larger(aim.target.min_solutions as int, 1) as u32;
    law_budget_stays_in_bounds(aim.difficulty, wanted, bounds);
    law_budget_at_the_ends(aim.difficulty, wanted, bounds);
}

/// A job that reaches a sampler describes a graph and respects the advertised
/// limits.
pub proof fn law_admitted_jobs_are_well_formed<C: Coefficient>(
    outcome: Result<Admitted<C>, MinerMsg>,
    job: Job,
    now: Option<u64>,
    id: BackendIdentity,
    cache: Option<&TopologyCache>,
)
    requires
        admitted_at(outcome, job, now, id, cache),
        outcome is Ok,
    ensures
        outcome->Ok_0.graph.wf(),
        id.max_nodes != 0 ==> outcome->Ok_0.graph.h@.len() <= id.max_nodes,
        id.max_edges != 0 ==> outcome->Ok_0.graph.edges@.len() <= id.max_edges,
        job.deadline_ms != 0 ==> (now matches Some(t) && t <= job.deadline_ms),
{
}

/// A job is taken exactly when it asks to sample, its deadline has not passed,
/// and its problem is one that this solver takes. It is refused for the first of
/// these that fails.
pub proof fn law_a_job_is_taken_as_asked(
    job: Job,
    now: Option<u64>,
    max_nodes: u32,
    max_edges: u32,
    cache: Option<&TopologyCache>,
)
    ensures
        ({
            let answer = admission(job, now, max_nodes, max_edges, cache);
            let sampled = job.kind == Some(JobKind::IsingSample);
            let in_time = job.deadline_ms == 0 || (now is Some && now->0 <= job.deadline_ms);
            &&& !sampled ==> answer == Err::<MilliProblem, RejectReason>(
                RejectReason::UnsupportedKind,
            )
            &&& sampled && !in_time ==> answer == Err::<MilliProblem, RejectReason>(
                RejectReason::Expired,
            )
            &&& sampled && in_time && job.ising is None ==> answer == Err::<
                MilliProblem,
                RejectReason,
            >(RejectReason::Malformed)
            &&& sampled && in_time && job.ising is Some ==> answer == parsed(
                job.ising->0,
                max_nodes,
                max_edges,
                cache,
            )
        }),
{
}

/// What reaches the sampler is the admitted job: its own graph under its own id,
/// with its own wire coefficients, its own numbers where it gives them, and the
/// seed that was drawn. It is abandoned with its generation, and with generation
/// zero never.
pub proof fn law_a_prepared_job_is_the_admitted_one<C: Coefficient>(
    prepared: Prepared<C>,
    admitted: Admitted<C>,
    seed: u64,
    id: BackendIdentity,
    default_sweeps: usize,
    sweeps_per_beta: Option<usize>,
    aim: Option<Aim>,
    limits: SamplerLimits,
)
    requires
        prepared_with(
            prepared,
            admitted,
            Some(seed),
            id,
            default_sweeps,
            sweeps_per_beta,
            aim,
            limits,
        ),
    ensures
        prepared matches Prepared::Reject(msg) ==> msg@ is Reject && msg@->Reject_0
            == admitted.job_id@,
        prepared matches Prepared::Sample {
            job,
            warm_start,
            exact_energy,
            num_reads,
            num_sweeps,
        } ==> {
            &&& job.job_id@ == admitted.job_id@
            &&& job.graph == admitted.graph
            &&& exact_energy == admitted.exact_energy
            &&& job.params.seed == seed
            &&& job.params.num_reads == num_reads
            &&& job.params.num_sweeps == num_sweeps
            &&& num_reads <= limits.max_reads
            &&& job.params.beta_range is None
            &&& sweeps_per_beta is None ==> job.params.sweeps_per_beta == 1
            &&& sweeps_per_beta is Some ==> job.params.sweeps_per_beta == sweeps_per_beta->0
            &&& admitted.problem.num_reads != 0 ==> num_reads == admitted.problem.num_reads
            &&& admitted.problem.num_sweeps != 0 && id.algorithm == Algorithm::Sa ==> num_sweeps
                == admitted.problem.num_sweeps
            &&& admitted.problem.num_sweeps != 0 && id.algorithm == Algorithm::Gibbs && 2
                * admitted.problem.num_sweeps <= u32::MAX ==> num_sweeps == 2
                * admitted.problem.num_sweeps
            &&& admitted.generation == 0 ==> job.watermark is None
            &&& admitted.generation != 0 ==> job.watermark == Some(admitted.generation)
            &&& !limits.accepts_warm_start ==> warm_start is None
            &&& admitted.problem.initial_spins@.len() == 0 ==> warm_start is None
        },
        admitted.problem.initial_spins@.len() == 0 && admitted.problem.num_reads != 0
            && admitted.problem.num_reads <= limits.max_reads ==> prepared is Sample,
        admitted.problem.initial_spins@.len() == 0 && admitted.problem.num_reads
            > limits.max_reads ==> prepared is Reject && prepared->Reject_0@ == Reply::Reject(
            admitted.job_id@,
            RejectReason::TooLarge,
        ),
{
}

/// Packed reads keep their number and order, each with its own spins and its own
/// energy, so that unpacking one gives back the read at its place.
pub proof fn law_every_packed_read_unpacks_to_itself(
    solutions: Seq<(Seq<u8>, i64)>,
    reads: Seq<SamplerResult>,
    i: int,
)
    requires
        packs_reads(solutions, reads),
        0 <= i < reads.len(),
        are_spins(reads[i].spins@),
    ensures
        solutions.len() == reads.len(),
        solutions[i].1 == reads[i].energy_milli,
        unpacked_spins(solutions[i].0, reads[i].spins@.len() as int) == reads[i].spins@,
{
    law_spins_survive_packing(solutions[i].0, reads[i].spins@);
}

/// A deadline that has passed stays passed, and one that is met now was met
/// before. Without a clock every deadline counts as passed, and no deadline
/// never passes.
pub proof fn law_deadlines_pass_once(deadline_ms: u64, sooner: u64, later: u64)
    requires
        sooner <= later,
    ensures
        past_deadline(deadline_ms, Some(sooner)) ==> past_deadline(deadline_ms, Some(later)),
        !past_deadline(deadline_ms, Some(deadline_ms)),
        0 < deadline_ms < later ==> past_deadline(deadline_ms, Some(later)),
        deadline_ms > 0 ==> past_deadline(deadline_ms, None),
        !past_deadline(0, Some(later)),
        !past_deadline(0, None),
{
}

/// An admitted job keeps its id, its generation and its problem. A problem that
/// was encoded from thousandths reaches an exact sampler as those thousandths,
/// and any other sampler with those thousandths beside it. A refused job is
/// answered under its own id.
pub proof fn law_an_admitted_job_keeps_its_thousandths<C: Coefficient>(
    outcome: Result<Admitted<C>, MinerMsg>,
    job: Job,
    now: Option<u64>,
    id: BackendIdentity,
    cache: Option<&TopologyCache>,
    h: Seq<i32>,
    j: Seq<i32>,
)
    requires
        admitted_at(outcome, job, now, id, cache),
        job.ising matches Some(problem) && problem.h@ == le_bytes_of(h) && problem.j@
            == le_bytes_of(j),
    ensures
        outcome matches Err(msg) ==> msg@ is Reject && msg@->Reject_0 == job.job_id@,
        outcome matches Ok(a) ==> {
            &&& a.job_id@ == job.job_id@
            &&& a.generation == job.generation
            &&& job.ising == Some(a.problem)
            &&& a.graph.h@.len() == h.len()
            &&& a.graph.j@.len() == j.len()
            &&& C::EXACT ==> a.exact_energy is None
            &&& C::EXACT ==> forall|i: int|
                0 <= i < h.len() ==> (#[trigger] a.graph.h@[i]).stored() == h[i]
            &&& C::EXACT ==> forall|k: int|
                0 <= k < j.len() ==> (#[trigger] a.graph.j@[k]).stored() == j[k]
            &&& !C::EXACT ==> a.exact_energy is Some && a.exact_energy->0.h@ == h
                && a.exact_energy->0.j@ == j && a.exact_energy->0.edges@ == a.graph.edges@
        },
{
    if outcome is Ok {
        let problem = job.ising->0;
        law_i32_codec_round_trip(h);
        law_i32_codec_round_trip(j);
        lemma_same_values(h, problem.h@);
        lemma_same_values(j, problem.j@);
        let a = outcome->Ok_0;
        if C::EXACT {
            law_exact_types_lose_nothing(h, a.graph.h@);
            law_exact_types_lose_nothing(j, a.graph.j@);
        }
    }
}

} // verus!
