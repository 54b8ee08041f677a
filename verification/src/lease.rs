//! Salt ranges: admission, expansion, and the accounting of their end.
use crate::adapt::{cap_count, capped_count};
use crate::cancel::{abandons, CancelToken};
use crate::coefficient::Coefficient;
use crate::dispatch::{
    now_unix_ms, os_seed, pack_reads, packs_reads, past_deadline, resolve_budget, resolved_reads,
    resolved_sweeps, watermark, watermark_of, Aim,
};
use crate::encoding::{convert_milli, converts, keeps_all, law_exact_types_lose_nothing};
use crate::error::SampleError;
use crate::ising::{IsingGraph, SampleParams, SamplerResult};
use crate::job::{copy_edges, copy_spins, ExactEnergy, SessionTarget};
use crate::message::{
    credits_in, law_credits_add_up, replies, Fatal, GeneratorRequest, Job, JobResult, LeaseDone,
    LeaseGraph, MinerMsg, RejectReason, Reply, SamplerMeta, Solution,
};
use crate::pending::{law_held_ids_are_distinct, pending_id, salt_id, LeaseLink, PendingJob};
use crate::session::{BackendIdentity, ExitCode, LeaseTopology};
use crate::stream::{StreamJob, StreamOutcome, StreamResult};
use crate::wire::{
    are_spins, clamp_i64, copy_bytes, energy, energy_from_milli, same_bytes,
};
use crate::writer::{is_lowest, lowest_energy};
use vstd::prelude::*;
use vstd::string::*;

verus! {

/// A lease no longer accepts reads.
#[derive(Clone, Copy, Debug, PartialEq, Eq, Structural)]
pub struct LeaseStopped;

impl LeaseStopped {
    /// What an operator reads.
    #[must_use]
    pub fn to_string(&self) -> (text: String)
        ensures
            text@ == "lease stopped"@,
    {
        "lease stopped".to_owned()
    }
}

/// How far a salt range has come.
#[derive(Clone, Copy, Debug, PartialEq, Eq, Structural)]
pub struct Progress {
    /// Salts handed to the sampler.
    pub dispatched: u64,
    /// Salts that need nothing more.
    pub finished: u64,
    /// Salts that came back with reads.
    pub salts_done: u64,
    /// Lowest energy of any read, and the largest number before the first.
    pub best_energy_milli: i64,
    /// No salt will be handed out any more.
    pub closed: bool,
    /// The end has been reported.
    pub done_sent: bool,
}

impl Progress {
    /// What finished was handed out, what came back with reads was handed out,
    /// and the end is reported only of a range that is closed.
    pub open spec fn wf(self) -> bool {
        &&& self.finished <= self.dispatched
        &&& self.salts_done <= self.dispatched
        &&& self.done_sent ==> self.closed
    }

    /// Nothing handed out yet.
    pub open spec fn fresh() -> Progress {
        Progress {
            dispatched: 0,
            finished: 0,
            salts_done: 0,
            best_energy_milli: i64::MAX,
            closed: false,
            done_sent: false,
        }
    }
}

/// A salt range that this solver works on.
#[derive(Debug)]
pub struct LeaseState {
    pub job_id: Vec<u8>,
    pub salt_count: u64,
    pub watermark: Option<u64>,
    pub deadline_ms: u64,
    /// The session ended under it. The ranges of a session share this, and
    /// [`LeaseState::follow`] brings a range up to date.
    pub aborted: bool,
    pub progress: Progress,
}

/// What the end of a range says.
pub open spec fn done_reply(state: LeaseState) -> Reply {
    Reply::LeaseDone {
        job_id: state.job_id@,
        salts_done: state.progress.salts_done,
        best_energy_milli: state.progress.best_energy_milli,
    }
}

/// The end of a range is due: nothing more is handed out, everything handed
/// out has finished, and it has not been reported.
pub open spec fn done_due(state: LeaseState) -> bool {
    &&& !state.aborted
    &&& state.progress.closed
    &&& state.progress.finished == state.progress.dispatched
    &&& !state.progress.done_sent
}

/// `state` with its progress replaced.
pub open spec fn with_progress(state: LeaseState, progress: Progress) -> LeaseState {
    LeaseState { progress, ..state }
}

/// `state` once it knows whether its session was aborted.
pub open spec fn followed(state: LeaseState, aborted: bool) -> LeaseState {
    LeaseState { aborted: state.aborted || aborted, ..state }
}

/// The lower of two energies.
pub open spec fn lower(a: i64, b: i64) -> i64 {
    if b < a {
        b
    } else {
        a
    }
}

/// `after` is `best` once the reads of one salt are counted in.
pub open spec fn best_with(best: i64, reads: Seq<SamplerResult>, after: i64) -> bool {
    ||| reads.len() == 0 && after == best
    ||| exists|m: i64| #[trigger] is_lowest(reads, Some(m)) && after == lower(best, m)
}

/// `out`, `more` and `after` are what becomes of `before` when it is looked at.
pub open spec fn watches(
    before: LeaseState,
    stopped: bool,
    shutting_down: bool,
    after: LeaseState,
    out: Seq<Reply>,
    more: bool,
) -> bool {
    let closed = if stopped || shutting_down {
        with_progress(before, Progress { closed: true, ..before.progress })
    } else {
        before
    };
    &&& if done_due(closed) {
        &&& out == seq![done_reply(closed), Reply::Credits(1)]
        &&& after == with_progress(
            closed,
            Progress { done_sent: true, ..closed.progress },
        )
    } else {
        &&& out == Seq::<Reply>::empty()
        &&& after == closed
    }
    &&& more == !(after.progress.done_sent || after.aborted)
}

impl LeaseState {
    /// Cancelled, expired, or ended with its session.
    pub open spec fn is_stopped(self, point: u64, now: Option<u64>) -> bool {
        self.aborted || abandons(point, self.watermark) || past_deadline(self.deadline_ms, now)
    }

    /// Whether the range is cancelled, expired, or ended with its session at
    /// the time `now`.
    pub fn stopped_at(&self, cancel: &CancelToken, now: Option<u64>) -> (stopped: bool)
        ensures
            stopped == self.is_stopped(cancel.point, now),
    {
        let late: bool = self.deadline_ms != 0 && match now {
            None => true,
            Some(t) => self.deadline_ms < t,
        };
        self.aborted || cancel.is_cancelled(self.watermark) || late
    }

    /// Whether the range is cancelled, expired, or ended with its session now.
    pub fn stopped(&self, cancel: &CancelToken) -> (stopped: bool)
        ensures
            exists|now: Option<u64>| stopped == #[trigger] self.is_stopped(cancel.point, now),
            self.deadline_ms == 0 ==> stopped == self.is_stopped(cancel.point, None),
    {
        let now: Option<u64> = if self.deadline_ms != 0 {
            now_unix_ms()
        } else {
            None
        };
        self.stopped_at(cancel, now)
    }

    /// Take over what the ranges of the session share: whether it was aborted.
    pub fn follow(&mut self, aborted: bool)
        ensures
            *final(self) == followed(*old(self), aborted),
    {
        if aborted {
            self.aborted = true;
        }
    }

    /// Hand one salt to the sampler.
    pub fn dispatch(&mut self)
        requires
            old(self).progress.wf(),
            old(self).progress.dispatched < u64::MAX,
        ensures
            final(self).progress.wf(),
            *final(self) == with_progress(
                *old(self),
                Progress {
                    dispatched: (old(self).progress.dispatched + 1) as u64,
                    ..old(self).progress
                },
            ),
    {
        self.progress.dispatched = self.progress.dispatched + 1;
    }

    /// Count one salt as finished.
    pub fn finish_one(&mut self)
        requires
            old(self).progress.wf(),
            old(self).progress.finished < old(self).progress.dispatched,
        ensures
            final(self).progress.wf(),
            *final(self) == with_progress(
                *old(self),
                Progress {
                    finished: (old(self).progress.finished + 1) as u64,
                    ..old(self).progress
                },
            ),
    {
        self.progress.finished = self.progress.finished + 1;
    }

    /// Hand out nothing more.
    pub fn close(&mut self)
        requires
            old(self).progress.wf(),
        ensures
            final(self).progress.wf(),
            *final(self) == with_progress(
                *old(self),
                Progress { closed: true, ..old(self).progress },
            ),
    {
        self.progress.closed = true;
    }

    /// Count the reads of one salt.
    pub fn record_samples(&mut self, reads: &[SamplerResult])
        requires
            old(self).progress.wf(),
            old(self).progress.salts_done < old(self).progress.dispatched,
        ensures
            final(self).progress.wf(),
            best_with(
                old(self).progress.best_energy_milli,
                reads@,
                final(self).progress.best_energy_milli,
            ),
            *final(self) == with_progress(
                *old(self),
                Progress {
                    salts_done: (old(self).progress.salts_done + 1) as u64,
                    best_energy_milli: final(self).progress.best_energy_milli,
                    ..old(self).progress
                },
            ),
    {
        self.progress.salts_done = self.progress.salts_done + 1;
        match lowest_energy(reads) {
            None => {},
            Some(m) => {
                assert(is_lowest(reads@, Some(m)));
                if m < self.progress.best_energy_milli {
                    self.progress.best_energy_milli = m;
                }
            },
        }
    }

    /// Report the end of the range, once, when it is due.
    pub fn try_finish(&mut self) -> (done: Option<MinerMsg>)
        requires
            old(self).progress.wf(),
        ensures
            final(self).progress.wf(),
            match done {
                Some(msg) => {
                    &&& done_due(*old(self))
                    &&& msg@ == done_reply(*old(self))
                    &&& *final(self) == with_progress(
                        *old(self),
                        Progress { done_sent: true, ..old(self).progress },
                    )
                },
                None => !done_due(*old(self)) && *final(self) == *old(self),
            },
    {
        if self.aborted || !self.progress.closed || self.progress.finished
            != self.progress.dispatched || self.progress.done_sent {
            return None;
        }
        self.progress.done_sent = true;
        Some(
            MinerMsg::LeaseDone(
                LeaseDone {
                    job_id: copy_bytes(self.job_id.as_slice()),
                    salts_done: self.progress.salts_done,
                    best_energy_milli: self.progress.best_energy_milli,
                },
            ),
        )
    }

    /// Report the end of the range and give back its credit, when it is due.
    pub fn send_done(&mut self) -> (out: Vec<MinerMsg>)
        requires
            old(self).progress.wf(),
        ensures
            final(self).progress.wf(),
            if done_due(*old(self)) {
                &&& replies(out@) == seq![done_reply(*old(self)), Reply::Credits(1)]
                &&& *final(self) == with_progress(
                    *old(self),
                    Progress { done_sent: true, ..old(self).progress },
                )
            } else {
                &&& replies(out@) == Seq::<Reply>::empty()
                &&& *final(self) == *old(self)
            },
    {
        let mut out: Vec<MinerMsg> = Vec::new();
        match self.try_finish() {
            None => {
                assert(replies(out@) =~= Seq::<Reply>::empty());
            },
            Some(done) => {
                out.push(done);
                out.push(MinerMsg::JobRequest(1));
                assert(replies(out@) =~= seq![done_reply(*old(self)), Reply::Credits(1)]);
            },
        }
        out
    }

    /// Close the range when it is stopped or the session shuts down, report its
    /// end when due, and say whether anything is left to watch. A backend that
    /// never returns does not keep a cancelled range open.
    pub fn watch(&mut self, stopped: bool, shutting_down: bool) -> (watched: (Vec<MinerMsg>, bool))
        requires
            old(self).progress.wf(),
        ensures
            final(self).progress.wf(),
            watches(
                *old(self),
                stopped,
                shutting_down,
                *final(self),
                replies(watched.0@),
                watched.1,
            ),
    {
        if stopped || shutting_down {
            self.close();
        }
        let out: Vec<MinerMsg> = self.send_done();
        let more: bool = !(self.progress.done_sent || self.aborted);
        (out, more)
    }
}

/// `after` is `before` once its end has been reported.
pub open spec fn reports_the_end(before: LeaseState, after: LeaseState) -> bool {
    &&& done_due(before)
    &&& after == with_progress(before, Progress { done_sent: true, ..before.progress })
}

/// One step of a range: a salt is handed out, counted, or finished, the range is
/// closed or its device faults, its session is aborted, or its end is reported.
pub open spec fn is_step(before: LeaseState, after: LeaseState) -> bool {
    let p = before.progress;
    ||| after == with_progress(before, Progress { dispatched: (p.dispatched + 1) as u64, ..p })
    ||| after == with_progress(before, Progress { finished: (p.finished + 1) as u64, ..p })
    ||| after == with_progress(
        before,
        Progress {
            salts_done: (p.salts_done + 1) as u64,
            best_energy_milli: after.progress.best_energy_milli,
            ..p
        },
    )
    ||| after == with_progress(before, Progress { closed: true, ..p })
    ||| after == followed(before, true)
    ||| after == faulted(before, true)
    ||| after == faulted(before, false)
    ||| reports_the_end(before, after)
}

proof fn lemma_a_report_stays(states: Seq<LeaseState>, from: int, to: int)
    requires
        forall|i: int| 0 <= i < states.len() - 1 ==> #[trigger] is_step(states[i], states[i + 1]),
        0 <= from <= to < states.len(),
        states[from].progress.done_sent,
    ensures
        states[to].progress.done_sent,
    decreases to - from,
{
    if from < to {
        lemma_a_report_stays(states, from, to - 1);
        assert(is_step(states[to - 1], states[to - 1 + 1]));
    }
}

/// However the steps of a range follow each other, its end is reported at most
/// once, and only when everything that was handed out has finished.
pub proof fn law_the_end_is_reported_once(states: Seq<LeaseState>, first: int, second: int)
    requires
        forall|i: int| 0 <= i < states.len() - 1 ==> #[trigger] is_step(states[i], states[i + 1]),
        0 <= first < states.len() - 1,
        0 <= second < states.len() - 1,
        reports_the_end(states[first], states[first + 1]),
        reports_the_end(states[second], states[second + 1]),
    ensures
        first == second,
        states[first].progress.closed,
        states[first].progress.finished == states[first].progress.dispatched,
{
    if first < second {
        lemma_a_report_stays(states, first + 1, second);
    } else if second < first {
        lemma_a_report_stays(states, second + 1, first);
    }
}

/// The first device fault of a session stops every range that follows it, and
/// none of them reports an end.
pub proof fn law_a_fault_stops_every_range(
    state: LeaseState,
    other: LeaseState,
    point: u64,
    now: Option<u64>,
)
    ensures
        ({
            let after = followed(other, faulted(state, false).aborted);
            &&& after.is_stopped(point, now)
            &&& !done_due(after)
        }),
{
}

/// A range that was aborted with its session reports no end.
pub proof fn law_an_aborted_range_reports_nothing(state: LeaseState)
    requires
        state.aborted,
    ensures
        !done_due(state),
{
}

/// What this solver must know of a topology to draw problems over it, or why a
/// range is refused.
pub open spec fn lease_admission(
    job: Job,
    now: Option<u64>,
    topology: Option<&LeaseTopology>,
    target: Option<SessionTarget>,
    max_nodes: u32,
    max_edges: u32,
) -> Result<u64, RejectReason> {
    if past_deadline(job.deadline_ms, now) {
        Err(RejectReason::Expired)
    } else if topology is None {
        Err(RejectReason::TopologyMissing)
    } else if !(target matches Some(t) && t.max_proof_solutions != 0) {
        Err(RejectReason::TargetMissing)
    } else {
        match job.generator {
            None => Err(RejectReason::Malformed),
            Some(request) => match request.salt_count {
                None => Err(RejectReason::Malformed),
                Some(count) => if request.topology_hash@ != topology->0.hash@ {
                    Err(RejectReason::TopologyMismatch)
                } else {
                    match topology->0.graph {
                        Err(reason) => Err(reason),
                        Ok(graph) => if (graph.num_nodes != 0 && graph.allowed_h_milli@.len() == 0)
                            || (graph.edges@.len() != 0 && graph.allowed_j_milli@.len() == 0) {
                            Err(RejectReason::Malformed)
                        } else if (max_nodes != 0 && graph.num_nodes > max_nodes) || (max_edges != 0
                            && graph.edges@.len() > max_edges) {
                            Err(RejectReason::TooLarge)
                        } else {
                            Ok(count)
                        },
                    }
                },
            },
        }
    }
}

/// Validate a range at the time `now`, before any salt is drawn. The answer is
/// how many salts it holds.
pub fn admit_lease_at(
    job: &Job,
    now: Option<u64>,
    topology: Option<&LeaseTopology>,
    target: Option<SessionTarget>,
    id: &BackendIdentity,
) -> (admitted: Result<u64, RejectReason>)
    ensures
        admitted == lease_admission(*job, now, topology, target, id.max_nodes, id.max_edges),
{
    if job.deadline_ms != 0 {
        let late: bool = match now {
            None => true,
            Some(t) => job.deadline_ms < t,
        };
        if late {
            return Err(RejectReason::Expired);
        }
    }
    let cached: &LeaseTopology = match topology {
        None => {
            return Err(RejectReason::TopologyMissing);
        },
        Some(cached) => cached,
    };
    let aimed: bool = match target {
        None => false,
        Some(t) => t.max_proof_solutions != 0,
    };
    if !aimed {
        return Err(RejectReason::TargetMissing);
    }
    let request: &GeneratorRequest = match &job.generator {
        None => {
            return Err(RejectReason::Malformed);
        },
        Some(request) => request,
    };
    let count: u64 = match request.salt_count {
        None => {
            return Err(RejectReason::Malformed);
        },
        Some(count) => count,
    };
    if !same_bytes(request.topology_hash.as_slice(), cached.hash.as_slice()) {
        return Err(RejectReason::TopologyMismatch);
    }
    match &cached.graph {
        Err(reason) => Err(*reason),
        Ok(graph) => {
            if (graph.num_nodes != 0 && graph.allowed_h_milli.len() == 0) || (graph.edges.len() != 0
                && graph.allowed_j_milli.len() == 0) {
                return Err(RejectReason::Malformed);
            }
            if (id.max_nodes != 0 && graph.num_nodes > id.max_nodes as usize) || (id.max_edges != 0
                && graph.edges.len() > id.max_edges as usize) {
                return Err(RejectReason::TooLarge);
            }
            Ok(count)
        },
    }
}

/// Validate a range now. The clock is read only for a job with a deadline.
pub fn admit_lease(
    job: &Job,
    topology: Option<&LeaseTopology>,
    target: Option<SessionTarget>,
    id: &BackendIdentity,
) -> (admitted: Result<u64, RejectReason>)
    ensures
        exists|now: Option<u64>|
            admitted == #[trigger] lease_admission(
                *job,
                now,
                topology,
                target,
                id.max_nodes,
                id.max_edges,
            ),
        job.deadline_ms == 0 ==> admitted == lease_admission(
            *job,
            None,
            topology,
            target,
            id.max_nodes,
            id.max_edges,
        ),
{
    let now: Option<u64> = if job.deadline_ms != 0 {
        now_unix_ms()
    } else {
        None
    };
    admit_lease_at(job, now, topology, target, id)
}

/// Resolve the budget of an admitted range of `salt_count` salts, and start its
/// accounting. `aborted` is what the ranges of the session share.
pub fn prepare_lease(
    job: &Job,
    salt_count: u64,
    aim: Aim,
    id: &BackendIdentity,
    max_reads: u32,
    default_sweeps: usize,
    sweeps_per_beta: Option<usize>,
    aborted: bool,
) -> (prepared: Result<(LeaseState, SampleParams), RejectReason>)
    ensures
        ({
            let reads = resolved_reads(0, Some(aim), id.adapt);
            let sweeps = resolved_sweeps(
                0,
                Some(aim),
                id.adapt,
                capped_count(default_sweeps),
                id.algorithm,
            );
            match prepared {
                Err(reason) => reason == RejectReason::TooLarge && reads > max_reads,
                Ok((state, params)) => {
                    &&& reads <= max_reads
                    &&& state.job_id@ == job.job_id@
                    &&& state.salt_count == salt_count
                    &&& state.watermark == watermark_of(job.generation)
                    &&& state.deadline_ms == job.deadline_ms
                    &&& state.aborted == aborted
                    &&& state.progress == Progress::fresh()
                    &&& params == (SampleParams {
                        num_reads: reads as usize,
                        num_sweeps: sweeps as usize,
                        sweeps_per_beta: match sweeps_per_beta {
                            Some(n) => n,
                            None => 1,
                        },
                        beta_range: None,
                        seed: 0,
                    })
                },
            }
        }),
{
    let (num_reads, num_sweeps): (u32, u32) = resolve_budget(
        (0, 0),
        Some(aim),
        id,
        cap_count(default_sweeps),
    );
    if num_reads > max_reads {
        return Err(RejectReason::TooLarge);
    }
    let per_beta: usize = match sweeps_per_beta {
        Some(n) => n,
        None => 1,
    };
    let state: LeaseState = LeaseState {
        job_id: copy_bytes(job.job_id.as_slice()),
        salt_count,
        watermark: watermark(job.generation),
        deadline_ms: job.deadline_ms,
        aborted,
        progress: Progress {
            dispatched: 0,
            finished: 0,
            salts_done: 0,
            best_energy_milli: i64::MAX,
            closed: false,
            done_sent: false,
        },
    };
    Ok(
        (
            state,
            SampleParams {
                num_reads: num_reads as usize,
                num_sweeps: num_sweeps as usize,
                sweeps_per_beta: per_beta,
                beta_range: None,
                seed: 0,
            },
        ),
    )
}

/// `graph` and `exact` are one draw in the sampler's representation. The drawn
/// thousandths are kept only when the representation changed one of them.
pub open spec fn draws<C: Coefficient>(
    graph: IsingGraph<C>,
    exact: Option<ExactEnergy>,
    h: Seq<i32>,
    j: Seq<i32>,
    edges: Seq<(usize, usize)>,
) -> bool {
    &&& converts(h, graph.h@)
    &&& converts(j, graph.j@)
    &&& graph.edges@ == edges
    &&& exact is None <==> keeps_all(h, graph.h@) && keeps_all(j, graph.j@)
    &&& exact matches Some(e) ==> e.h@ == h && e.j@ == j && e.edges@ == edges
}

/// Convert one draw over `edges`.
pub fn draw_graph<C: Coefficient>(h: Vec<i32>, j: Vec<i32>, edges: &[(usize, usize)]) -> (drawn: (
    IsingGraph<C>,
    Option<ExactEnergy>,
))
    requires
        C::scale() > 0,
    ensures
        draws(drawn.0, drawn.1, h@, j@, edges@),
{
    let (h, j, exact_milli): (Vec<C>, Vec<C>, Option<(Vec<i32>, Vec<i32>)>) = convert_milli(h, j);
    let exact: Option<ExactEnergy> = match exact_milli {
        None => None,
        Some((eh, ej)) => Some(ExactEnergy::new(eh, ej, copy_edges(edges))),
    };
    (IsingGraph::new(h, j, copy_edges(edges)), exact)
}

/// Hands out the salts of one range, in order.
#[derive(Clone, Copy, Debug, PartialEq, Eq, Structural)]
pub struct Expander {
    /// Number of the range within its session.
    pub lease: u64,
    /// The next salt.
    pub index: u64,
}

/// One salt on its way to the sampler.
#[derive(Debug)]
pub struct SaltJob<C> {
    pub job: StreamJob<C>,
    pub entry: PendingJob,
}

/// `salt` is salt `index` of `state`, drawn as `graph` and seeded with `seed`.
pub open spec fn is_salt_job<C: Coefficient>(
    salt: SaltJob<C>,
    state: LeaseState,
    lease: u64,
    index: u64,
    graph: IsingGraph<C>,
    exact: Option<ExactEnergy>,
    params: SampleParams,
    seed: u64,
    now_ms: u64,
) -> bool {
    &&& salt.job.job_id@ == salt_id(state.job_id@, index)
    &&& salt.job.graph == graph
    &&& salt.job.params == (SampleParams { seed, ..params })
    &&& salt.job.watermark == state.watermark
    &&& salt.entry.job_id@ == state.job_id@
    &&& salt.entry.exact_energy == exact
    &&& salt.entry.num_reads == capped_count(params.num_reads)
    &&& salt.entry.num_sweeps == capped_count(params.num_sweeps)
    &&& salt.entry.started_ms == now_ms
    &&& salt.entry.max_energy_milli is None
    &&& salt.entry.min_solutions == 0
    &&& salt.entry.watermark == state.watermark
    &&& salt.entry.lease == Some(LeaseLink { lease, index })
}

impl Expander {
    /// The salt to draw next, if any is due.
    pub open spec fn due(self, state: LeaseState, stopped: bool, shutting_down: bool) -> Option<
        u64,
    > {
        if self.index < state.salt_count && !stopped && !shutting_down {
            Some(self.index)
        } else {
            None
        }
    }

    /// The salt to draw next, or `None` when the range is done with: stopped,
    /// shut down, or exhausted.
    pub fn next_salt(&self, state: &LeaseState, stopped: bool, shutting_down: bool) -> (index:
        Option<u64>)
        ensures
            index == self.due(*state, stopped, shutting_down),
    {
        if self.index < state.salt_count && !stopped && !shutting_down {
            Some(self.index)
        } else {
            None
        }
    }

    /// Hand out one drawn salt with a seed. A seed of `None` stands for a
    /// generator that failed, and hands out nothing.
    pub fn hand_out_seeded<C: Coefficient>(
        &mut self,
        state: &mut LeaseState,
        drawn: (IsingGraph<C>, Option<ExactEnergy>),
        params: SampleParams,
        seed: Option<u64>,
        now_ms: u64,
    ) -> (salt: Option<SaltJob<C>>)
        requires
            old(self).index < old(state).salt_count,
            old(state).progress.wf(),
            old(state).progress.dispatched < u64::MAX,
        ensures
            match seed {
                None => {
                    &&& salt is None
                    &&& *final(self) == *old(self)
                    &&& *final(state) == *old(state)
                },
                Some(s) => {
                    &&& salt is Some
                    &&& is_salt_job(
                        salt->0,
                        *old(state),
                        old(self).lease,
                        old(self).index,
                        drawn.0,
                        drawn.1,
                        params,
                        s,
                        now_ms,
                    )
                    &&& *final(self) == (Expander {
                        index: (old(self).index + 1) as u64,
                        ..*old(self)
                    })
                    &&& *final(state) == with_progress(
                        *old(state),
                        Progress {
                            dispatched: (old(state).progress.dispatched + 1) as u64,
                            ..old(state).progress
                        },
                    )
                },
            },
    {
        let s: u64 = match seed {
            None => {
                return None;
            },
            Some(s) => s,
        };
        let (graph, exact_energy): (IsingGraph<C>, Option<ExactEnergy>) = drawn;
        let job_id: Vec<u8> = pending_id(state.job_id.as_slice(), Some(self.index));
        let entry: PendingJob = PendingJob {
            job_id: copy_bytes(state.job_id.as_slice()),
            exact_energy,
            num_reads: cap_count(params.num_reads),
            num_sweeps: cap_count(params.num_sweeps),
            started_ms: now_ms,
            max_energy_milli: None,
            min_solutions: 0,
            watermark: state.watermark,
            lease: Some(LeaseLink { lease: self.lease, index: self.index }),
        };
        let job: StreamJob<C> = StreamJob {
            job_id,
            graph,
            params: SampleParams {
                num_reads: params.num_reads,
                num_sweeps: params.num_sweeps,
                sweeps_per_beta: params.sweeps_per_beta,
                beta_range: params.beta_range,
                seed: s,
            },
            watermark: state.watermark,
        };
        state.dispatch();
        self.index = self.index + 1;
        Some(SaltJob { job, entry })
    }

    /// Hand out one drawn salt with a seed from the operating system, or
    /// nothing when there is none.
    pub fn hand_out<C: Coefficient>(
        &mut self,
        state: &mut LeaseState,
        drawn: (IsingGraph<C>, Option<ExactEnergy>),
        params: SampleParams,
        now_ms: u64,
    ) -> (salt: Option<SaltJob<C>>)
        requires
            old(self).index < old(state).salt_count,
            old(state).progress.wf(),
            old(state).progress.dispatched < u64::MAX,
        ensures
            match salt {
                None => *final(self) == *old(self) && *final(state) == *old(state),
                Some(s) => {
                    &&& is_salt_job(
                        s,
                        *old(state),
                        old(self).lease,
                        old(self).index,
                        drawn.0,
                        drawn.1,
                        params,
                        s.job.params.seed,
                        now_ms,
                    )
                    &&& *final(self) == (Expander {
                        index: (old(self).index + 1) as u64,
                        ..*old(self)
                    })
                    &&& *final(state) == with_progress(
                        *old(state),
                        Progress {
                            dispatched: (old(state).progress.dispatched + 1) as u64,
                            ..old(state).progress
                        },
                    )
                },
            },
    {
        let seed: Option<u64> = os_seed();
        self.hand_out_seeded(state, drawn, params, seed, now_ms)
    }
}

/// `handed` are the indices of the salts that an expander handed out while it
/// went through `states`.
pub open spec fn is_expansion(states: Seq<Expander>, handed: Seq<u64>, salt_count: u64) -> bool {
    &&& states.len() == handed.len() + 1
    &&& states[0].index == 0
    &&& forall|i: int|
        0 <= i < handed.len() ==> {
            &&& (#[trigger] handed[i]) == states[i].index
            &&& handed[i] < salt_count
            &&& states[i + 1] == (Expander { index: (handed[i] + 1) as u64, ..states[i] })
        }
}

/// An expander hands out the salts of its range in order, each of them once, so
/// no two of them are held under one id.
pub proof fn law_salts_are_handed_out_in_order(
    states: Seq<Expander>,
    handed: Seq<u64>,
    salt_count: u64,
    job_id: Seq<u8>,
)
    requires
        is_expansion(states, handed, salt_count),
    ensures
        handed.len() <= salt_count,
        states.last().index == handed.len(),
        forall|i: int| 0 <= i < handed.len() ==> #[trigger] handed[i] == i,
        forall|i: int, k: int|
            0 <= i < k < handed.len() ==> salt_id(job_id, #[trigger] handed[i]) != salt_id(
                job_id,
                #[trigger] handed[k],
            ),
    decreases handed.len(),
{
    if handed.len() > 0 {
        let last = handed.len() - 1;
        assert forall|i: int| 0 <= i < handed.drop_last().len() implies {
            &&& (#[trigger] handed.drop_last()[i]) == states.drop_last()[i].index
            &&& handed.drop_last()[i] < salt_count
            &&& states.drop_last()[i + 1] == (Expander {
                index: (handed.drop_last()[i] + 1) as u64,
                ..states.drop_last()[i]
            })
        } by {
            assert(handed[i] == handed.drop_last()[i]);
        }
        law_salts_are_handed_out_in_order(states.drop_last(), handed.drop_last(), salt_count, job_id);
        assert(handed[last] == states[last].index);
        assert forall|i: int| 0 <= i < handed.len() implies #[trigger] handed[i] == i by {
            if i < last {
                assert(handed[i] == handed.drop_last()[i]);
            }
        }
        assert forall|i: int, k: int| 0 <= i < k < handed.len() implies salt_id(
            job_id,
            #[trigger] handed[i],
        ) != salt_id(job_id, #[trigger] handed[k]) by {
            if salt_id(job_id, handed[i]) == salt_id(job_id, handed[k]) {
                law_held_ids_are_distinct(job_id, Some(handed[i]), job_id, Some(handed[k]));
            }
        }
    }
}

/// The reads at `indices`, in that order, without the indices that name none.
pub open spec fn chosen_reads(reads: Seq<SamplerResult>, indices: Seq<usize>) -> Seq<SamplerResult>
    decreases indices.len(),
{
    if indices.len() == 0 {
        seq![]
    } else {
        let rest = chosen_reads(reads, indices.drop_last());
        if indices.last() < reads.len() {
            rest.push(reads[indices.last() as int])
        } else {
            rest
        }
    }
}

/// `msg` reports the winning reads of one salt.
pub open spec fn is_winner(
    msg: MinerMsg,
    state: LeaseState,
    reads: Seq<SamplerResult>,
    indices: Seq<usize>,
    salt: Seq<u8>,
    nonce: Seq<u8>,
    meta: SamplerMeta,
) -> bool {
    &&& msg@ matches Reply::Result { job_id, salt: s, nonce: n, solutions, meta: m }
    &&& job_id == state.job_id@
    &&& s == salt
    &&& n == nonce
    &&& packs_reads(solutions, chosen_reads(reads, indices))
    &&& m == meta
}

fn pick_reads(reads: &[SamplerResult], indices: &[usize]) -> (picked: Vec<SamplerResult>)
    ensures
        same_reads(picked@, chosen_reads(reads@, indices@)),
{
    let mut picked: Vec<SamplerResult> = Vec::new();
    let mut i: usize = 0;
    assert(indices@.take(0) =~= Seq::<usize>::empty());
    while i < indices.len()
        invariant
            i <= indices@.len(),
            same_reads(picked@, chosen_reads(reads@, indices@.take(i as int))),
        decreases indices@.len() - i,
    {
        let at: usize = indices[i];
        proof {
            assert(indices@.take(i + 1).drop_last() =~= indices@.take(i as int));
            assert(indices@.take(i + 1).last() == at);
        }
        if at < reads.len() {
            picked.push(
                SamplerResult {
                    spins: copy_spins(reads[at].spins.as_slice()),
                    energy_milli: reads[at].energy_milli,
                },
            );
        }
        i += 1;
    }
    assert(indices@.take(i as int) =~= indices@);
    picked
}

/// The same spins and energies.
pub open spec fn same_reads(a: Seq<SamplerResult>, b: Seq<SamplerResult>) -> bool {
    &&& a.len() == b.len()
    &&& forall|i: int|
        0 <= i < a.len() ==> (#[trigger] a[i]).spins@ == b[i].spins@ && a[i].energy_milli
            == b[i].energy_milli
}

/// Report the winning reads of one salt: those at `indices`.
pub fn winner(
    state: &LeaseState,
    reads: &[SamplerResult],
    indices: &[usize],
    salt: Vec<u8>,
    nonce: Vec<u8>,
    meta: SamplerMeta,
) -> (msg: MinerMsg)
    ensures
        is_winner(msg, *state, reads@, indices@, salt@, nonce@, meta),
{
    let picked: Vec<SamplerResult> = pick_reads(reads, indices);
    let solutions: Vec<Solution> = pack_reads(picked.as_slice());
    proof {
        let packed = crate::message::packed_solutions(solutions@);
        let want = chosen_reads(reads@, indices@);
        assert forall|i: int| 0 <= i < want.len() implies crate::wire::packed_from(
            (#[trigger] packed[i]).0,
            want[i].spins@,
        ) && packed[i].1 == want[i].energy_milli by {
            assert(picked@[i].spins@ == want[i].spins@);
        }
    }
    MinerMsg::Result(
        JobResult { job_id: copy_bytes(state.job_id.as_slice()), salt, nonce, solutions, meta },
    )
}

/// A range that is neither stopped nor shut down is handed out whole: as long as
/// fewer salts were handed out than it holds, the next one is due, and then none
/// is. A range that is stopped hands out nothing more.
pub proof fn law_a_range_is_handed_out_whole(
    states: Seq<Expander>,
    handed: Seq<u64>,
    state: LeaseState,
    stopped: bool,
    shutting_down: bool,
)
    requires
        is_expansion(states, handed, state.salt_count),
    ensures
        !stopped && !shutting_down && handed.len() < state.salt_count ==> states.last().due(
            state,
            stopped,
            shutting_down,
        ) == Some(handed.len() as u64),
        handed.len() == state.salt_count ==> states.last().due(state, stopped, shutting_down)
            is None,
        stopped || shutting_down ==> states.last().due(state, stopped, shutting_down) is None,
{
    law_salts_are_handed_out_in_order(states, handed, state.salt_count, state.job_id@);
    if handed.len() > 0 {
        let last = handed.len() - 1;
        assert(handed[last] == last);
        assert(states[last + 1].index == handed[last] + 1);
    }
}

proof fn lemma_chosen(reads: Seq<SamplerResult>, indices: Seq<usize>)
    ensures
        chosen_reads(reads, indices) == indices.filter(|i: usize| i < reads.len()).map_values(
            |i: usize| reads[i as int],
        ),
        (forall|k: int| 0 <= k < indices.len() ==> (#[trigger] indices[k]) < reads.len()) ==> {
            &&& chosen_reads(reads, indices).len() == indices.len()
            &&& forall|k: int|
                0 <= k < indices.len() ==> #[trigger] chosen_reads(reads, indices)[k]
                    == reads[indices[k] as int]
        },
    decreases indices.len(),
{
    reveal(Seq::filter);
    let named = indices.filter(|i: usize| i < reads.len());
    if indices.len() == 0 {
        assert(named.map_values(|i: usize| reads[i as int]) =~= Seq::empty());
    } else {
        let shorter = indices.drop_last();
        lemma_chosen(reads, shorter);
        let fewer = shorter.filter(|i: usize| i < reads.len());
        if indices.last() < reads.len() {
            assert(named == fewer.push(indices.last()));
            assert(named.map_values(|i: usize| reads[i as int]) =~= fewer.map_values(
                |i: usize| reads[i as int],
            ).push(reads[indices.last() as int]));
        }
        if forall|k: int| 0 <= k < indices.len() ==> (#[trigger] indices[k]) < reads.len() {
            assert forall|k: int| 0 <= k < shorter.len() implies (#[trigger] shorter[k])
                < reads.len() by {
                assert(indices[k] < reads.len());
            }
            assert(indices[indices.len() - 1] < reads.len());
            assert forall|k: int| 0 <= k < indices.len() implies #[trigger] chosen_reads(
                reads,
                indices,
            )[k] == reads[indices[k] as int] by {
                if k < shorter.len() {
                    assert(chosen_reads(reads, shorter)[k] == reads[shorter[k] as int]);
                }
            }
        }
    }
}

/// The reads at a list of indices that all name a read are as many as the
/// indices, each the read that its own index names. An index that names none is
/// left out, and the others keep their order.
pub proof fn law_every_index_picks_its_own_read(reads: Seq<SamplerResult>, indices: Seq<usize>)
    ensures
        (forall|k: int| 0 <= k < indices.len() ==> (#[trigger] indices[k]) < reads.len()) ==> {
            &&& chosen_reads(reads, indices).len() == indices.len()
            &&& forall|k: int|
                0 <= k < indices.len() ==> #[trigger] chosen_reads(reads, indices)[k]
                    == reads[indices[k] as int]
        },
        chosen_reads(reads, indices) == indices.filter(|i: usize| i < reads.len()).map_values(
            |i: usize| reads[i as int],
        ),
{
    lemma_chosen(reads, indices);
}

/// A winner carries one solution for every proof index, in order: the spins and
/// the energy of the read that the index names. It carries the range's id and
/// the salt, nonce and figures that it was given.
pub proof fn law_a_winner_carries_every_proof_read(
    msg: MinerMsg,
    state: LeaseState,
    reads: Seq<SamplerResult>,
    indices: Seq<usize>,
    salt: Seq<u8>,
    nonce: Seq<u8>,
    meta: SamplerMeta,
)
    requires
        is_winner(msg, state, reads, indices, salt, nonce, meta),
    ensures
        msg@ matches Reply::Result { job_id, salt: s, nonce: n, solutions, meta: m } ==> {
            &&& job_id == state.job_id@
            &&& s == salt
            &&& n == nonce
            &&& m == meta
            &&& solutions.len() == indices.filter(|i: usize| i < reads.len()).len()
            &&& (forall|k: int| 0 <= k < indices.len() ==> (#[trigger] indices[k]) < reads.len())
                ==> {
                &&& solutions.len() == indices.len()
                &&& forall|k: int|
                    0 <= k < indices.len() ==> (#[trigger] solutions[k]).1
                        == reads[indices[k] as int].energy_milli && crate::wire::packed_from(
                        solutions[k].0,
                        reads[indices[k] as int].spins@,
                    )
            }
        },
        msg@ is Result,
{
    lemma_chosen(reads, indices);
}

/// What the protocol found for a salt index, and zeros for an index outside
/// the range.
pub fn or_zeros(found: Option<Vec<u8>>) -> (bytes: Vec<u8>)
    ensures
        bytes@ == match found {
            Some(b) => b@,
            None => Seq::new(32, |i: int| 0u8),
        },
{
    match found {
        Some(bytes) => bytes,
        None => {
            let mut bytes: Vec<u8> = Vec::new();
            let mut i: usize = 0;
            while i < 32
                invariant
                    i <= 32,
                    bytes@.len() == i,
                    forall|k: int| 0 <= k < i ==> bytes@[k] == 0,
                decreases 32 - i,
            {
                bytes.push(0);
                i += 1;
            }
            assert(bytes@ =~= Seq::new(32, |i: int| 0u8));
            bytes
        },
    }
}

/// Score one salt that the sampler finished. `proof_indices` are the reads
/// that meet the session target, or `None` when they do not. The reply, if
/// there is one, goes out before the salt is counted as finished.
pub fn handle_result(
    state: &mut LeaseState,
    result: StreamResult,
    proof_indices: Option<Vec<usize>>,
    salt: Vec<u8>,
    nonce: Vec<u8>,
    num_reads: u32,
    num_sweeps: u32,
) -> (reply: Option<MinerMsg>)
    requires
        old(state).progress.wf(),
        old(state).progress.salts_done < old(state).progress.dispatched,
    ensures
        final(state).progress.wf(),
        match result.outcome {
            StreamOutcome::Completed(Ok(reads)) => {
                &&& best_with(
                    old(state).progress.best_energy_milli,
                    reads@,
                    final(state).progress.best_energy_milli,
                )
                &&& *final(state) == with_progress(
                    *old(state),
                    Progress {
                        salts_done: (old(state).progress.salts_done + 1) as u64,
                        best_energy_milli: final(state).progress.best_energy_milli,
                        ..old(state).progress
                    },
                )
                &&& match (reply, proof_indices) {
                    (None, None) => true,
                    (Some(msg), Some(indices)) => is_winner(
                        msg,
                        *old(state),
                        reads@,
                        indices@,
                        salt@,
                        nonce@,
                        SamplerMeta {
                            reads: num_reads,
                            sweeps: num_sweeps,
                            device_access_time_us: result.device_access_time_us,
                            qpu_access_us: 0,
                        },
                    ),
                    _ => false,
                }
            },
            _ => reply is None && *final(state) == *old(state),
        },
{
    match result.outcome {
        StreamOutcome::Completed(Ok(reads)) => {
            state.record_samples(reads.as_slice());
            match proof_indices {
                None => None,
                Some(indices) => Some(
                    winner(
                        state,
                        reads.as_slice(),
                        indices.as_slice(),
                        salt,
                        nonce,
                        SamplerMeta {
                            reads: num_reads,
                            sweeps: num_sweeps,
                            device_access_time_us: result.device_access_time_us,
                            qpu_access_us: 0,
                        },
                    ),
                ),
            }
        },
        _ => None,
    }
}

/// Count one salt as finished, and report the end of the range when that was
/// the last one.
pub fn finish_result(state: &mut LeaseState) -> (out: Vec<MinerMsg>)
    requires
        old(state).progress.wf(),
        old(state).progress.finished < old(state).progress.dispatched,
    ensures
        final(state).progress.wf(),
        ({
            let counted = with_progress(
                *old(state),
                Progress {
                    finished: (old(state).progress.finished + 1) as u64,
                    ..old(state).progress
                },
            );
            if done_due(counted) {
                &&& replies(out@) == seq![done_reply(counted), Reply::Credits(1)]
                &&& *final(state) == with_progress(
                    counted,
                    Progress { done_sent: true, ..counted.progress },
                )
            } else {
                &&& replies(out@) == Seq::<Reply>::empty()
                &&& *final(state) == counted
            }
        }),
{
    state.finish_one();
    state.send_done()
}

/// What the writer does for one salt.
#[derive(Debug)]
pub struct SaltHandled {
    /// Send these, in order. A `Fatal` among them is the last thing to send.
    pub out: Vec<MinerMsg>,
    /// The session is over.
    pub fatal: bool,
}

/// What goes out when a salt is counted as finished: the end of the range, when
/// that was the last one.
pub open spec fn end_replies(counted: LeaseState) -> Seq<Reply> {
    if done_due(counted) {
        seq![done_reply(counted), Reply::Credits(1)]
    } else {
        Seq::empty()
    }
}

/// `handled` and `after` are what becomes of `before` when one of its salts comes
/// back as `shown`.
pub open spec fn settles(
    before: LeaseState,
    shown: StreamResult,
    proof_indices: Option<Vec<usize>>,
    salt: Seq<u8>,
    nonce: Seq<u8>,
    num_reads: u32,
    num_sweeps: u32,
    already_faulted: bool,
    after: LeaseState,
    handled: SaltHandled,
) -> bool {
    match shown.outcome {
        StreamOutcome::Completed(Err(e)) if e is DeviceFault => {
            &&& handled.fatal
            &&& replies(handled.out@) == if already_faulted {
                Seq::<Reply>::empty()
            } else {
                seq![fault_reply(e)]
            }
            &&& after == faulted(before, already_faulted)
        },
        StreamOutcome::Completed(Ok(reads)) => {
            let scored = with_progress(
                before,
                Progress {
                    salts_done: (before.progress.salts_done + 1) as u64,
                    best_energy_milli: after.progress.best_energy_milli,
                    ..before.progress
                },
            );
            let counted = with_progress(
                scored,
                Progress {
                    finished: (scored.progress.finished + 1) as u64,
                    ..scored.progress
                },
            );
            &&& !handled.fatal
            &&& best_with(
                before.progress.best_energy_milli,
                reads@,
                after.progress.best_energy_milli,
            )
            &&& match proof_indices {
                None => replies(handled.out@) == end_replies(counted),
                Some(indices) => {
                    &&& handled.out@.len() == 1 + end_replies(counted).len()
                    &&& is_winner(
                        handled.out@[0],
                        before,
                        reads@,
                        indices@,
                        salt,
                        nonce,
                        SamplerMeta {
                            reads: num_reads,
                            sweeps: num_sweeps,
                            device_access_time_us: shown.device_access_time_us,
                            qpu_access_us: 0,
                        },
                    )
                    &&& replies(handled.out@).skip(1) == end_replies(counted)
                },
            }
            &&& after == if done_due(counted) {
                with_progress(counted, Progress { done_sent: true, ..counted.progress })
            } else {
                counted
            }
        },
        _ => {
            let counted = with_progress(
                before,
                Progress {
                    finished: (before.progress.finished + 1) as u64,
                    ..before.progress
                },
            );
            &&& !handled.fatal
            &&& replies(handled.out@) == end_replies(counted)
            &&& after == if done_due(counted) {
                with_progress(counted, Progress { done_sent: true, ..counted.progress })
            } else {
                counted
            }
        },
    }
}

/// Settle one salt as the coordinator learns of it. A winner goes out first,
/// then the salt is counted, and then the end of the range when it was the last
/// one. A device fault aborts the range and ends the session.
pub fn settle_salt(
    state: &mut LeaseState,
    shown: StreamResult,
    proof_indices: Option<Vec<usize>>,
    salt: Vec<u8>,
    nonce: Vec<u8>,
    num_reads: u32,
    num_sweeps: u32,
    already_faulted: bool,
) -> (handled: SaltHandled)
    requires
        old(state).progress.wf(),
        old(state).progress.salts_done < old(state).progress.dispatched,
        old(state).progress.finished < old(state).progress.dispatched,
    ensures
        final(state).progress.wf(),
        settles(
            *old(state),
            shown,
            proof_indices,
            salt@,
            nonce@,
            num_reads,
            num_sweeps,
            already_faulted,
            *final(state),
            handled,
        ),
{
    let mut out: Vec<MinerMsg> = Vec::new();
    match &shown.outcome {
        StreamOutcome::Completed(Err(e)) => {
            if e.is_fatal() {
                match fault(state, e, already_faulted) {
                    None => {
                        assert(replies(out@) =~= Seq::<Reply>::empty());
                    },
                    Some(msg) => {
                        out.push(msg);
                        assert(replies(out@) =~= seq![fault_reply(*e)]);
                    },
                }
                return SaltHandled { out, fatal: true };
            }
        },
        _ => {},
    }
    let reply: Option<MinerMsg> = handle_result(
        state,
        shown,
        proof_indices,
        salt,
        nonce,
        num_reads,
        num_sweeps,
    );
    let mut tail: Vec<MinerMsg> = finish_result(state);
    let ghost end = tail@;
    match reply {
        None => SaltHandled { out: tail, fatal: false },
        Some(msg) => {
            out.push(msg);
            out.append(&mut tail);
            proof {
                assert(out@ =~= seq![msg] + end);
                assert(replies(out@).skip(1) =~= replies(end));
            }
            SaltHandled { out, fatal: false }
        },
    }
}

/// Whether a backend that draws its own salts may go on with a range: it is
/// not stopped, the session is not shutting down, replies can still be sent,
/// and it has not been closed.
pub fn sink_is_stopped(
    state: &LeaseState,
    stopped: bool,
    shutting_down: bool,
    replies_open: bool,
) -> (ended: bool)
    ensures
        ended == (stopped || shutting_down || !replies_open || state.progress.closed),
{
    stopped || shutting_down || !replies_open || state.progress.closed
}

/// `taken` and `after` are what becomes of `before` when a backend hands in the
/// reads of a salt that it drew itself.
pub open spec fn takes_reads(
    before: LeaseState,
    salt_index: u64,
    reads: Seq<SamplerResult>,
    ended: bool,
    after: LeaseState,
    taken: bool,
) -> bool {
    if ended || salt_index >= before.salt_count || before.progress.closed {
        !taken && after == before
    } else {
        &&& taken
        &&& best_with(
            before.progress.best_energy_milli,
            reads,
            after.progress.best_energy_milli,
        )
        &&& after == with_progress(
            before,
            Progress {
                dispatched: (before.progress.dispatched + 1) as u64,
                salts_done: (before.progress.salts_done + 1) as u64,
                best_energy_milli: after.progress.best_energy_milli,
                ..before.progress
            },
        )
    }
}

/// Take all reads of a salt that the backend drew itself. `ended` is what
/// [`sink_is_stopped`] said.
pub fn push_reads(
    state: &mut LeaseState,
    salt_index: u64,
    reads: &[SamplerResult],
    ended: bool,
) -> (taken: Result<(), LeaseStopped>)
    requires
        old(state).progress.wf(),
        old(state).progress.dispatched < u64::MAX,
    ensures
        final(state).progress.wf(),
        takes_reads(*old(state), salt_index, reads@, ended, *final(state), taken is Ok),
        taken is Err <==> ended || salt_index >= old(state).salt_count
            || old(state).progress.closed,
        taken is Err ==> *final(state) == *old(state),
{
    if ended || salt_index >= state.salt_count || state.progress.closed {
        return Err(LeaseStopped);
    }
    state.dispatch();
    state.record_samples(reads);
    Ok(())
}

/// One read is what the host computes for the same draw: a spin for every
/// node, each up or down, and the consensus energy.
pub open spec fn read_agrees(
    read: SamplerResult,
    h: Seq<i32>,
    j: Seq<i32>,
    graph: LeaseGraph,
) -> bool {
    &&& read.spins@.len() == graph.num_nodes
    &&& are_spins(read.spins@)
    &&& read.energy_milli == clamp_i64(energy(read.spins@, h, j, graph.edges@))
}

/// Whether every read is what the host computes for the same draw.
pub fn reads_agree(
    reads: &[SamplerResult],
    h: &[i32],
    j: &[i32],
    graph: &LeaseGraph,
) -> (agree: bool)
    ensures
        agree == (forall|i: int|
            0 <= i < reads@.len() ==> #[trigger] read_agrees(reads@[i], h@, j@, *graph)),
{
    let mut i: usize = 0;
    while i < reads.len()
        invariant
            i <= reads@.len(),
            forall|k: int| 0 <= k < i ==> #[trigger] read_agrees(reads@[k], h@, j@, *graph),
        decreases reads@.len() - i,
    {
        let host: i64 = energy_from_milli(
            reads[i].spins.as_slice(),
            h,
            j,
            graph.edges.as_slice(),
        );
        if reads[i].spins.len() != graph.num_nodes || !all_spins(reads[i].spins.as_slice()) || host
            != reads[i].energy_milli {
            assert(!read_agrees(reads@[i as int], h@, j@, *graph));
            return false;
        }
        i += 1;
    }
    true
}

fn all_spins(spins: &[i8]) -> (all: bool)
    ensures
        all == are_spins(spins@),
{
    let mut i: usize = 0;
    while i < spins.len()
        invariant
            i <= spins@.len(),
            forall|k: int| 0 <= k < i ==> (#[trigger] spins@[k] == 1 || spins@[k] == -1),
        decreases spins@.len() - i,
    {
        if spins[i] != 1 && spins[i] != -1 {
            assert(!(spins@[i as int] == 1 || spins@[i as int] == -1));
            return false;
        }
        i += 1;
    }
    true
}

/// The device reported an energy that the host does not.
pub open spec fn disagreement() -> Seq<char> {
    "local lease draw disagrees with host energy"@
}

/// What became of one salt that a backend drew itself.
#[derive(Debug)]
pub enum Pushed {
    /// Its reads do not win.
    Kept,
    /// Send this.
    Winner(MinerMsg),
    /// The range ended meanwhile.
    Stopped,
    /// The device cannot be trusted.
    Fault(SampleError),
}

/// Judge the reads of one salt that a backend drew itself and that met the
/// session target.
///
/// `drawn` is the host's own draw of that salt, or why it failed. `ended` says
/// whether the range ended while the host was checking. `proof_indices` are the
/// reads that meet the target then in force, or `None` when they do not.
pub fn push_winner(
    state: &LeaseState,
    reads: &[SamplerResult],
    drawn: Result<(Vec<i32>, Vec<i32>), String>,
    graph: &LeaseGraph,
    ended: bool,
    proof_indices: Option<Vec<usize>>,
    salt: Vec<u8>,
    nonce: Vec<u8>,
    params: &SampleParams,
) -> (pushed: Pushed)
    ensures
        match drawn {
            Err(text) => pushed matches Pushed::Fault(SampleError::DeviceFault(detail)) && detail
                == text,
            Ok((h, j)) => if !(forall|i: int|
                0 <= i < reads@.len() ==> #[trigger] read_agrees(reads@[i], h@, j@, *graph)) {
                pushed matches Pushed::Fault(SampleError::DeviceFault(detail)) && detail@
                    == disagreement()
            } else if ended {
                pushed is Stopped
            } else {
                match proof_indices {
                    None => pushed is Kept,
                    Some(indices) => pushed matches Pushed::Winner(msg) && is_winner(
                        msg,
                        *state,
                        reads@,
                        indices@,
                        salt@,
                        nonce@,
                        SamplerMeta {
                            reads: capped_count(params.num_reads),
                            sweeps: capped_count(params.num_sweeps),
                            device_access_time_us: 0,
                            qpu_access_us: 0,
                        },
                    ),
                }
            },
        },
{
    let (h, j): (Vec<i32>, Vec<i32>) = match drawn {
        Err(text) => {
            return Pushed::Fault(SampleError::DeviceFault(text));
        },
        Ok(pair) => pair,
    };
    if !reads_agree(reads, h.as_slice(), j.as_slice(), graph) {
        return Pushed::Fault(
            SampleError::DeviceFault("local lease draw disagrees with host energy".to_owned()),
        );
    }
    if ended {
        return Pushed::Stopped;
    }
    match proof_indices {
        None => Pushed::Kept,
        Some(indices) => Pushed::Winner(
            winner(
                state,
                reads,
                indices.as_slice(),
                salt,
                nonce,
                SamplerMeta {
                    reads: cap_count(params.num_reads),
                    sweeps: cap_count(params.num_sweeps),
                    device_access_time_us: 0,
                    qpu_access_us: 0,
                },
            ),
        ),
    }
}

/// What a device fault says to the coordinator.
pub open spec fn fault_reply(error: SampleError) -> Reply {
    Reply::Fatal { exit_code: 70, reason: error.text(), restart_required: true }
}

/// `state` once its device cannot be trusted.
pub open spec fn faulted(state: LeaseState, already_faulted: bool) -> LeaseState {
    LeaseState {
        aborted: state.aborted || !already_faulted,
        progress: Progress { closed: true, ..state.progress },
        ..state
    }
}

/// Close a range whose device cannot be trusted. The first fault of a session
/// also aborts the range and is reported; later ones are not.
pub fn fault(state: &mut LeaseState, error: &SampleError, already_faulted: bool) -> (msg: Option<
    MinerMsg,
>)
    requires
        old(state).progress.wf(),
    ensures
        final(state).progress.wf(),
        *final(state) == faulted(*old(state), already_faulted),
        msg is None <==> already_faulted,
        msg matches Some(m) ==> m@ == fault_reply(*error),
{
    state.close();
    if already_faulted {
        None
    } else {
        state.aborted = true;
        Some(
            MinerMsg::Fatal(
                Fatal {
                    exit_code: ExitCode::InternalFatal.code(),
                    reason: error.to_string(),
                    restart_required: true,
                },
            ),
        )
    }
}

/// `out` and `after` are what becomes of `before` when a backend that drew its
/// own salts returns.
pub open spec fn ends_locally(
    before: LeaseState,
    result: Result<(), SampleError>,
    already_faulted: bool,
    after: LeaseState,
    out: Seq<Reply>,
) -> bool {
    let closed = with_progress(
        before,
        Progress { closed: true, ..before.progress },
    );
    let due = done_due(closed);
    let fatal = result matches Err(e) && e is DeviceFault;
    let head = if due {
        seq![done_reply(closed)]
    } else {
        Seq::<Reply>::empty()
    };
    let tail = if fatal && !already_faulted {
        seq![fault_reply(result->Err_0)]
    } else if !fatal && due {
        seq![Reply::Credits(1)]
    } else {
        Seq::<Reply>::empty()
    };
    &&& out == head + tail
    &&& after == (LeaseState {
        aborted: before.aborted || (fatal && !already_faulted),
        progress: Progress {
            closed: true,
            done_sent: before.progress.done_sent || due,
            ..before.progress
        },
        ..before
    })
}

/// What a backend that drew its own salts is owed when it returns: the range
/// is closed, its end is reported when due, and its credit is given back unless
/// the device failed.
pub fn finish_local(
    state: &mut LeaseState,
    result: Result<(), SampleError>,
    already_faulted: bool,
) -> (out: Vec<MinerMsg>)
    requires
        old(state).progress.wf(),
    ensures
        final(state).progress.wf(),
        ends_locally(*old(state), result, already_faulted, *final(state), replies(out@)),
{
    let mut out: Vec<MinerMsg> = Vec::new();
    state.close();
    let mut due: bool = false;
    match state.try_finish() {
        None => {},
        Some(done) => {
            due = true;
            out.push(done);
        },
    }
    match &result {
        Err(error) => {
            if error.is_fatal() {
                match fault(state, error, already_faulted) {
                    None => {},
                    Some(msg) => {
                        out.push(msg);
                    },
                }
            } else if due {
                out.push(MinerMsg::JobRequest(1));
            }
        },
        Ok(()) => {
            if due {
                out.push(MinerMsg::JobRequest(1));
            }
        },
    }
    proof {
        let closed = with_progress(*old(state), Progress { closed: true, ..old(state).progress });
        let fatal = result matches Err(e) && e is DeviceFault;
        let head = if done_due(closed) {
            seq![done_reply(closed)]
        } else {
            Seq::<Reply>::empty()
        };
        let tail = if fatal && !already_faulted {
            seq![fault_reply(result->Err_0)]
        } else if !fatal && done_due(closed) {
            seq![Reply::Credits(1)]
        } else {
            Seq::<Reply>::empty()
        };
        assert(replies(out@) =~= head + tail);
    }
    out
}

/// A range whose host check fails never reports a winner, and one whose reads
/// agree with the host is never called a fault.
pub proof fn law_winners_agree_with_the_host(
    reads: Seq<SamplerResult>,
    h: Seq<i32>,
    j: Seq<i32>,
    graph: LeaseGraph,
    indices: Seq<usize>,
)
    requires
        forall|i: int| 0 <= i < reads.len() ==> #[trigger] read_agrees(reads[i], h, j, graph),
    ensures
        forall|i: int|
            0 <= i < chosen_reads(reads, indices).len() ==> #[trigger] read_agrees(
                chosen_reads(reads, indices)[i],
                h,
                j,
                graph,
            ),
    decreases indices.len(),
{
    if indices.len() > 0 {
        law_winners_agree_with_the_host(reads, h, j, graph, indices.drop_last());
        let rest = chosen_reads(reads, indices.drop_last());
        if indices.last() < reads.len() {
            let all = chosen_reads(reads, indices);
            assert forall|i: int| 0 <= i < all.len() implies #[trigger] read_agrees(
                all[i],
                h,
                j,
                graph,
            ) by {
                if i < rest.len() {
                    assert(all[i] == rest[i]);
                    assert(read_agrees(rest[i], h, j, graph));
                } else {
                    assert(read_agrees(reads[indices.last() as int], h, j, graph));
                }
            }
        }
    }
}

/// The best energy of a range is the lowest seen so far: it never rises, no
/// read is lower, and it is one that was seen.
pub proof fn law_the_best_is_the_lowest_seen(best: i64, reads: Seq<SamplerResult>, after: i64)
    requires
        best_with(best, reads, after),
    ensures
        after <= best,
        forall|i: int| 0 <= i < reads.len() ==> after <= (#[trigger] reads[i]).energy_milli,
        after == best || exists|i: int|
            0 <= i < reads.len() && (#[trigger] reads[i]).energy_milli == after,
{
    if reads.len() > 0 {
        let m = choose|m: i64| #[trigger] is_lowest(reads, Some(m)) && after == lower(best, m);
        assert(is_lowest(reads, Some(m)));
    }
}

/// The end of a range is due as soon as nothing more is handed out and every
/// salt has finished, unless it was aborted or told before, and never earlier.
/// It names the range, counts the salts that came back with reads, tells the
/// best energy, and gives back exactly one credit.
pub proof fn law_a_finished_range_tells_what_it_did(state: LeaseState)
    ensures
        !state.aborted && !state.progress.done_sent && state.progress.closed
            && state.progress.finished == state.progress.dispatched ==> end_replies(state) == seq![
            Reply::LeaseDone {
                job_id: state.job_id@,
                salts_done: state.progress.salts_done,
                best_energy_milli: state.progress.best_energy_milli,
            },
            Reply::Credits(1),
        ],
        state.aborted || state.progress.done_sent || !state.progress.closed
            || state.progress.finished != state.progress.dispatched ==> end_replies(state).len()
            == 0,
{
}

/// A range is taken exactly when its deadline has not passed, the topology that
/// it names is the one at hand and is sound, the session has a target that wants
/// proofs, there is something to draw from, and the graph is within the limits.
/// Then the answer is its own number of salts.
pub proof fn law_a_range_is_taken_as_asked(
    job: Job,
    now: Option<u64>,
    topology: Option<&LeaseTopology>,
    target: Option<SessionTarget>,
    max_nodes: u32,
    max_edges: u32,
    count: u64,
)
    ensures
        lease_admission(job, now, topology, target, max_nodes, max_edges) == Ok::<
            u64,
            RejectReason,
        >(count) <==> {
            &&& job.deadline_ms == 0 || (now is Some && now->0 <= job.deadline_ms)
            &&& target is Some
            &&& target->0.max_proof_solutions > 0
            &&& job.generator is Some
            &&& job.generator->0.salt_count == Some(count)
            &&& topology is Some
            &&& topology->0.hash@ == job.generator->0.topology_hash@
            &&& topology->0.graph is Ok
            &&& topology->0.graph->Ok_0.allowed_h_milli@.len() > 0
                || topology->0.graph->Ok_0.num_nodes == 0
            &&& topology->0.graph->Ok_0.allowed_j_milli@.len() > 0
                || topology->0.graph->Ok_0.edges@.len() == 0
            &&& max_nodes == 0 || topology->0.graph->Ok_0.num_nodes <= max_nodes
            &&& max_edges == 0 || topology->0.graph->Ok_0.edges@.len() <= max_edges
        },
{
}

/// Two salts of one range sample with the same parameters but for their seeds,
/// are cancelled together, report to the same range, and are never held under
/// the same id.
pub proof fn law_salts_of_a_range_differ_in_draw_alone<C: Coefficient>(
    a: SaltJob<C>,
    b: SaltJob<C>,
    state: LeaseState,
    lease: u64,
    i: u64,
    k: u64,
    graph_a: IsingGraph<C>,
    graph_b: IsingGraph<C>,
    exact_a: Option<ExactEnergy>,
    exact_b: Option<ExactEnergy>,
    params: SampleParams,
    seed_a: u64,
    seed_b: u64,
    now_a: u64,
    now_b: u64,
)
    requires
        is_salt_job(a, state, lease, i, graph_a, exact_a, params, seed_a, now_a),
        is_salt_job(b, state, lease, k, graph_b, exact_b, params, seed_b, now_b),
        i != k,
    ensures
        a.job.job_id@ != b.job.job_id@,
        a.entry.job_id@ == state.job_id@,
        b.entry.job_id@ == state.job_id@,
        a.job.graph == graph_a,
        a.entry.exact_energy == exact_a,
        a.entry.lease matches Some(link) && link.lease == lease && link.index == i,
        a.job.params == (SampleParams { seed: seed_a, ..params }),
        a.job.watermark == state.watermark,
        a.entry.watermark == state.watermark,
        params.num_reads <= u32::MAX ==> a.entry.num_reads == params.num_reads,
        params.num_sweeps <= u32::MAX ==> a.entry.num_sweeps == params.num_sweeps,
        params.num_reads > u32::MAX ==> a.entry.num_reads == u32::MAX,
        params.num_sweeps > u32::MAX ==> a.entry.num_sweeps == u32::MAX,
        a.entry.started_ms == now_a,
{
    if a.job.job_id@ == b.job.job_id@ {
        law_held_ids_are_distinct(state.job_id@, Some(i), state.job_id@, Some(k));
    }
}

/// The host agrees with at most one energy for given spins, and with no read
/// that leaves a node out or has a spin that is neither up nor down.
pub proof fn law_the_host_agrees_with_one_energy(
    a: SamplerResult,
    b: SamplerResult,
    h: Seq<i32>,
    j: Seq<i32>,
    graph: LeaseGraph,
)
    requires
        read_agrees(a, h, j, graph),
    ensures
        a.spins@.len() == graph.num_nodes,
        forall|i: int| 0 <= i < a.spins@.len() ==> #[trigger] a.spins@[i] == 1 || a.spins@[i] == -1,
        i64::MIN <= energy(a.spins@, h, j, graph.edges@) <= i64::MAX ==> a.energy_milli == energy(
            a.spins@,
            h,
            j,
            graph.edges@,
        ),
        b.spins@ == a.spins@ ==> (read_agrees(b, h, j, graph) <==> b.energy_milli
            == a.energy_milli),
{
}

/// What a salt leaves behind: it is counted as finished once, and as done when it
/// came back with reads, and nothing else of its range changes. The range's one
/// credit comes back with its last salt, once the range is closed. A winner, when
/// there is one, goes out first.
pub proof fn law_every_salt_is_counted_once(
    before: LeaseState,
    shown: StreamResult,
    proof_indices: Option<Vec<usize>>,
    salt: Seq<u8>,
    nonce: Seq<u8>,
    num_reads: u32,
    num_sweeps: u32,
    already_faulted: bool,
    after: LeaseState,
    handled: SaltHandled,
)
    requires
        before.progress.wf(),
        before.progress.finished < before.progress.dispatched,
        before.progress.salts_done < before.progress.dispatched,
        settles(
            before,
            shown,
            proof_indices,
            salt,
            nonce,
            num_reads,
            num_sweeps,
            already_faulted,
            after,
            handled,
        ),
        !(shown.outcome matches StreamOutcome::Completed(Err(e)) && e is DeviceFault),
    ensures
        ({
            let (p, q) = (before.progress, after.progress);
            let out = replies(handled.out@);
            let last = p.closed && p.finished + 1 == p.dispatched && !before.aborted
                && !p.done_sent;
            let sampled = shown.outcome matches StreamOutcome::Completed(Ok(_));
            &&& !handled.fatal
            &&& after == (LeaseState { progress: q, ..before })
            &&& q.finished == p.finished + 1
            &&& q.dispatched == p.dispatched
            &&& q.closed == p.closed
            &&& sampled ==> q.salts_done == p.salts_done + 1
            &&& !sampled ==> q.salts_done == p.salts_done && q.best_energy_milli
                == p.best_energy_milli
            &&& q.done_sent == (p.done_sent || last)
            &&& credits_in(out) == if last {
                1int
            } else {
                0
            }
            &&& sampled && proof_indices is Some ==> out.len() > 0 && out[0] is Result
            &&& !(sampled && proof_indices is Some) ==> !(out.len() > 0 && out[0] is Result)
        }),
{
    let out = replies(handled.out@);
    let (p, q) = (before.progress, after.progress);
    let counted = LeaseState {
        progress: Progress { done_sent: p.done_sent, ..q },
        ..before
    };
    let end = end_replies(counted);
    reveal_with_fuel(credits_in, 3);
    assert(seq![done_reply(counted), Reply::Credits(1)].drop_last().drop_last() =~= Seq::empty());
    assert(credits_in(end) == if done_due(counted) {
        1int
    } else {
        0
    });
    if out != end {
        assert(out =~= seq![out[0]] + out.skip(1));
        law_credits_add_up(seq![out[0]], out.skip(1), out[0]);
    }
}

/// A salt whose device cannot be trusted closes its range and gives back nothing.
/// The first one of a session aborts the range and is reported as the last thing
/// that is sent, and later ones are silent.
pub proof fn law_a_faulty_salt_ends_the_session(
    before: LeaseState,
    shown: StreamResult,
    error: SampleError,
    proof_indices: Option<Vec<usize>>,
    salt: Seq<u8>,
    nonce: Seq<u8>,
    num_reads: u32,
    num_sweeps: u32,
    already_faulted: bool,
    after: LeaseState,
    handled: SaltHandled,
)
    requires
        settles(
            before,
            shown,
            proof_indices,
            salt,
            nonce,
            num_reads,
            num_sweeps,
            already_faulted,
            after,
            handled,
        ),
        shown.outcome == StreamOutcome::Completed(Err(error)),
        error is DeviceFault,
    ensures
        handled.fatal,
        after.progress == (Progress { closed: true, ..before.progress }),
        !already_faulted ==> after.aborted,
        already_faulted ==> after.aborted == before.aborted && handled.out@.len() == 0,
        !already_faulted ==> handled.out@.len() == 1 && handled.out@[0]@ == (Reply::Fatal {
            exit_code: 70,
            reason: error.text(),
            restart_required: true,
        }),
{
    let out = replies(handled.out@);
    assert(out.len() == handled.out@.len());
    if !already_faulted {
        assert(out[0] == handled.out@[0]@);
    }
}

/// Looking at a range closes it exactly when it is stopped or the session shuts
/// down, and tells its end with one credit when everything that it handed out has
/// finished. It is looked at again until its end is told or it is aborted.
pub proof fn law_a_stopped_range_is_closed(
    before: LeaseState,
    stopped: bool,
    shutting_down: bool,
    after: LeaseState,
    out: Seq<Reply>,
    more: bool,
)
    requires
        watches(before, stopped, shutting_down, after, out, more),
    ensures
        ({
            let (p, q) = (before.progress, after.progress);
            let ended = q.closed && p.finished == p.dispatched && !before.aborted && !p.done_sent;
            &&& q.closed == (p.closed || stopped || shutting_down)
            &&& q.finished == p.finished && q.dispatched == p.dispatched && q.salts_done
                == p.salts_done && q.best_energy_milli == p.best_energy_milli
            &&& after == (LeaseState { progress: q, ..before })
            &&& q.done_sent == (p.done_sent || ended)
            &&& ended ==> out.len() == 2 && out[0] == done_reply(before) && out[1]
                == Reply::Credits(1)
            &&& !ended ==> out.len() == 0
            &&& more <==> !q.done_sent && !after.aborted
        }),
{
}

/// A backend that draws its own salts leaves its range closed. Its end is told
/// when it is due, its credit comes back with that unless the device failed, and
/// the first failure of a session is told last.
pub proof fn law_a_local_range_ends_once(
    before: LeaseState,
    result: Result<(), SampleError>,
    already_faulted: bool,
    after: LeaseState,
    out: Seq<Reply>,
)
    requires
        ends_locally(before, result, already_faulted, after, out),
    ensures
        ({
            let p = before.progress;
            let due = p.finished == p.dispatched && !before.aborted && !p.done_sent;
            let failed = result matches Err(e) && e is DeviceFault;
            &&& after.progress == (Progress {
                closed: true,
                done_sent: p.done_sent || due,
                ..p
            })
            &&& after.aborted == (before.aborted || (failed && !already_faulted))
            &&& credits_in(out) == if due && !failed {
                1int
            } else {
                0
            }
            &&& due ==> out.len() > 0 && out[0] == done_reply(before)
            &&& failed && !already_faulted ==> out.len() > 0 && out.last() is Fatal
            &&& !due && !(failed && !already_faulted) ==> out.len() == 0
        }),
{
    reveal_with_fuel(credits_in, 3);
    let p = before.progress;
    if out.len() == 2 {
        assert(out.drop_last().drop_last() =~= Seq::empty());
        assert(out.drop_last().last() == out[0]);
    } else if out.len() == 1 {
        assert(out.drop_last() =~= Seq::empty());
    }
}

/// Reads that a backend hands in are taken as long as the range is open and the
/// salt is one of its own. Then one more salt counts as handed out and done, and
/// the best energy is the lowest seen.
pub proof fn law_reads_are_taken_while_open(
    before: LeaseState,
    salt_index: u64,
    reads: Seq<SamplerResult>,
    ended: bool,
    after: LeaseState,
    taken: bool,
)
    requires
        before.progress.wf(),
        before.progress.dispatched < u64::MAX,
        takes_reads(before, salt_index, reads, ended, after, taken),
    ensures
        taken <==> !ended && !before.progress.closed && salt_index < before.salt_count,
        !taken ==> after == before,
        taken ==> {
            &&& after == (LeaseState { progress: after.progress, ..before })
            &&& after.progress.dispatched == before.progress.dispatched + 1
            &&& after.progress.salts_done == before.progress.salts_done + 1
            &&& after.progress.finished == before.progress.finished
            &&& after.progress.best_energy_milli <= before.progress.best_energy_milli
            &&& forall|i: int|
                0 <= i < reads.len() ==> after.progress.best_energy_milli <= (
                #[trigger] reads[i]).energy_milli
        },
{
    if taken {
        law_the_best_is_the_lowest_seen(
            before.progress.best_energy_milli,
            reads,
            after.progress.best_energy_milli,
        );
    }
}

/// One draw reaches the sampler over the edges that it was drawn for. Either
/// every coefficient stands for the thousandths that were drawn, or those
/// thousandths and the edges are kept beside it.
pub proof fn law_a_draw_keeps_its_thousandths<C: Coefficient>(
    graph: IsingGraph<C>,
    exact: Option<ExactEnergy>,
    h: Seq<i32>,
    j: Seq<i32>,
    edges: Seq<(usize, usize)>,
)
    requires
        draws(graph, exact, h, j, edges),
    ensures
        graph.edges@ == edges,
        graph.h@.len() == h.len(),
        graph.j@.len() == j.len(),
        exact is None ==> forall|i: int|
            0 <= i < h.len() ==> (#[trigger] graph.h@[i]).stored() * 1000 == h[i] * C::scale(),
        exact is None ==> forall|k: int|
            0 <= k < j.len() ==> (#[trigger] graph.j@[k]).stored() * 1000 == j[k] * C::scale(),
        exact matches Some(e) ==> e.h@ == h && e.j@ == j && e.edges@ == edges,
        C::EXACT ==> exact is None,
{
    if C::EXACT {
        law_exact_types_lose_nothing(h, graph.h@);
        law_exact_types_lose_nothing(j, graph.j@);
    }
}

/// A range is stopped when its session was aborted, when its generation was
/// abandoned, or when its deadline has passed, each of them alone, and by nothing
/// else.
pub proof fn law_each_cause_stops_a_range(state: LeaseState, point: u64, now: u64)
    ensures
        state.aborted ==> state.is_stopped(point, Some(now)),
        (state.watermark matches Some(w) && w <= point && point > 0) ==> state.is_stopped(
            point,
            Some(now),
        ),
        0 < state.deadline_ms < now ==> state.is_stopped(point, Some(now)),
        state.deadline_ms > 0 ==> state.is_stopped(point, None),
        !state.aborted && (state.watermark matches Some(w) ==> w > point) && (state.deadline_ms == 0
            || now <= state.deadline_ms) ==> !state.is_stopped(point, Some(now)),
{
}

/// Whatever became of its salts, a range never finishes or counts more than it
/// handed out, and tells its end only once it is closed. A fresh range has handed
/// out nothing and has seen no energy.
pub proof fn law_progress_adds_up(p: Progress)
    ensures
        p.wf() <==> p.finished <= p.dispatched && p.salts_done <= p.dispatched && (p.done_sent
            ==> p.closed),
        Progress::fresh().wf(),
        Progress::fresh().dispatched == 0,
        Progress::fresh().best_energy_milli == i64::MAX,
        !Progress::fresh().closed,
{
}

} // verus!
