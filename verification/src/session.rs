//! The decisions of one session with a coordinator.
use crate::adapt::{cap_count, capped_count, AdaptBounds};
use crate::cancel::{raised, CancelToken};
use crate::capabilities::{full, session_capabilities, session_width};
use crate::dispatch::status_msg;
use crate::ising::Algorithm;
use crate::job::{
    caches, complaint, configured_sweeps, num_sweeps_from_toml, sweeps_complaint_of_toml,
    toml_top_level, SessionTarget, SweepsComplaint, TopologyCache, DEFAULT_NUM_SWEEPS,
};
use crate::message::{
    replies, CoordMsg, Fatal, Job, JobKind, LeaseGraph, MinerMsg, RejectReason, Reply, SetTarget,
    Topology, WelcomeFault,
};
use crate::text::{contains, contains_text, law_a_text_holds_its_middle};
use vstd::prelude::*;
use vstd::string::*;

verus! {

/// How a process ends.
#[derive(Clone, Copy, Debug, PartialEq, Eq, Structural)]
pub enum ExitCode {
    /// A clean stop.
    Clean,
    /// The configuration or the protocol version does not fit.
    ConfigInvalid,
    /// The device cannot be used here.
    EnvIncompatible,
    /// An unrecoverable failure.
    InternalFatal,
    /// The coordinator refused the session token.
    TokenRejected,
}

impl ExitCode {
    /// The number that the process exits with.
    pub open spec fn number(self) -> u32 {
        match self {
            ExitCode::Clean => 0,
            ExitCode::ConfigInvalid => 64,
            ExitCode::EnvIncompatible => 69,
            ExitCode::InternalFatal => 70,
            ExitCode::TokenRejected => 77,
        }
    }

    /// The number that the process exits with.
    #[must_use]
    pub fn code(self) -> (code: u32)
        ensures
            code == self.number(),
    {
        match self {
            ExitCode::Clean => 0,
            ExitCode::ConfigInvalid => 64,
            ExitCode::EnvIncompatible => 69,
            ExitCode::InternalFatal => 70,
            ExitCode::TokenRejected => 77,
        }
    }
}

/// Static backend metadata advertised in capabilities and Hello.
#[derive(Clone, Copy, Debug)]
pub struct BackendIdentity {
    /// Backend name advertised in Hello / capabilities (e.g. `"cpu"`, `"cuda"`).
    pub backend: &'static str,
    /// Algorithm advertised in Hello / capabilities.
    pub algorithm: Algorithm,
    /// Hard cap on variables accepted for a job. `0` means no cap.
    pub max_nodes: u32,
    /// Hard cap on edges accepted for a job. `0` means no cap.
    pub max_edges: u32,
    /// Extra capability names advertised in `Hello` and `Capabilities`
    /// (for example `"streaming"`, `"governor"`). Empty for a plain backend.
    pub features: &'static [&'static str],
    /// Sampling-parameter envelope.
    pub adapt: AdaptBounds,
}

/// Failure to open a device / build a sampler.
#[derive(Debug)]
pub struct OpenError(pub String);

/// A session that ended for a reason with a known exit code.
#[derive(Clone, Debug)]
pub struct SessionExit {
    pub code: ExitCode,
    pub detail: String,
}

/// What the handshake can fail on.
#[derive(Clone, Copy, Debug, PartialEq, Eq, Structural)]
pub enum SessionError {
    /// There is no session token to send.
    MissingToken,
    /// The coordinator speaks another protocol version.
    BadWelcome(u32),
}

impl SessionError {
    /// How a process ends on this error.
    pub open spec fn exit(self) -> ExitCode {
        match self {
            SessionError::MissingToken => ExitCode::TokenRejected,
            SessionError::BadWelcome(_) => ExitCode::ConfigInvalid,
        }
    }

    /// How a process ends on this error.
    #[must_use]
    pub fn exit_code(self) -> (code: ExitCode)
        ensures
            code == self.exit(),
    {
        match self {
            SessionError::MissingToken => ExitCode::TokenRejected,
            SessionError::BadWelcome(_) => ExitCode::ConfigInvalid,
        }
    }
}

/// Why a session did not end cleanly.
#[derive(Clone, Debug)]
pub enum SessionFailure {
    Session(SessionError),
    Exit(SessionExit),
    /// An error known by its text alone.
    Other(String),
}

/// The exit code of an error known by its text alone. Only a refused token and
/// a refused protocol version can be told from the text.
pub open spec fn exit_from_text(text: Seq<char>) -> ExitCode {
    if contains_text(text, "QUIP_SESSION_TOKEN"@) || contains_text(text, "session token"@) {
        ExitCode::TokenRejected
    } else if contains_text(text, "unexpected protocol version"@) {
        ExitCode::ConfigInvalid
    } else {
        ExitCode::InternalFatal
    }
}

/// How a process ends on a failed session.
#[must_use]
pub fn map_err_to_exit(err: &SessionFailure) -> (code: ExitCode)
    ensures
        code == match err {
            SessionFailure::Session(e) => e.exit(),
            SessionFailure::Exit(exit) => exit.code,
            SessionFailure::Other(text) => exit_from_text(text@),
        },
{
    match err {
        SessionFailure::Session(e) => e.exit_code(),
        SessionFailure::Exit(exit) => exit.code,
        SessionFailure::Other(text) => {
            if contains(text.as_str(), "QUIP_SESSION_TOKEN") || contains(
                text.as_str(),
                "session token",
            ) {
                ExitCode::TokenRejected
            } else if contains(text.as_str(), "unexpected protocol version") {
                ExitCode::ConfigInvalid
            } else {
                ExitCode::InternalFatal
            }
        },
    }
}

/// What came of writing a document.
#[derive(Clone, Copy, Debug, PartialEq, Eq, Structural)]
pub enum WriteOutcome {
    Written,
    /// The consumer stopped reading.
    BrokenPipe,
    Failed,
}

/// How a process ends after writing a document. A consumer that stopped
/// reading got what it asked for.
#[must_use]
pub fn write_and_map(outcome: WriteOutcome) -> (code: ExitCode)
    ensures
        code == if outcome == WriteOutcome::Failed {
            ExitCode::InternalFatal
        } else {
            ExitCode::Clean
        },
{
    match outcome {
        WriteOutcome::Written | WriteOutcome::BrokenPipe => ExitCode::Clean,
        WriteOutcome::Failed => ExitCode::InternalFatal,
    }
}

/// The `Fatal` the coordinator gets before the miner disconnects. Restarting
/// the process changes nothing until the configuration or the peer changes.
pub fn fatal_msg(code: ExitCode, reason: String) -> (msg: MinerMsg)
    ensures
        msg@ == (Reply::Fatal {
            exit_code: code.number(),
            reason: reason@,
            restart_required: false,
        }),
{
    MinerMsg::Fatal(Fatal { exit_code: code.code(), reason, restart_required: false })
}

/// Name of a coordinator message.
pub open spec fn msg_name(msg: Option<CoordMsg>) -> Seq<char> {
    match msg {
        Some(CoordMsg::Welcome(_)) => "Welcome"@,
        Some(CoordMsg::Configure { .. }) => "Configure"@,
        Some(CoordMsg::Topology(..)) => "Topology"@,
        Some(CoordMsg::SetTarget(_)) => "SetTarget"@,
        Some(CoordMsg::Job(_)) => "Job"@,
        Some(CoordMsg::Cancel(_)) => "Cancel"@,
        Some(CoordMsg::Ping) => "Ping"@,
        Some(CoordMsg::GetCapabilities) => "GetCapabilities"@,
        Some(CoordMsg::Shutdown(_)) => "Shutdown"@,
        None => "unset"@,
    }
}

/// Name of a coordinator message, for logs and handshake diagnostics.
pub fn coord_msg_name(msg: &Option<CoordMsg>) -> (name: &'static str)
    ensures
        name@ == msg_name(*msg),
{
    match msg {
        Some(CoordMsg::Welcome(_)) => "Welcome",
        Some(CoordMsg::Configure { .. }) => "Configure",
        Some(CoordMsg::Topology(..)) => "Topology",
        Some(CoordMsg::SetTarget(_)) => "SetTarget",
        Some(CoordMsg::Job(_)) => "Job",
        Some(CoordMsg::Cancel(_)) => "Cancel",
        Some(CoordMsg::Ping) => "Ping",
        Some(CoordMsg::GetCapabilities) => "GetCapabilities",
        Some(CoordMsg::Shutdown(_)) => "Shutdown",
        None => "unset",
    }
}

/// How many jobs a session keeps in flight and in its queue.
#[derive(Clone, Copy, Debug, PartialEq, Eq, Structural)]
pub struct StreamPlan {
    /// Models in flight.
    pub width: usize,
    /// Jobs in flight and the next one for each.
    pub prefetch: usize,
    /// Capacity of the job queue.
    pub cap: usize,
}

impl StreamPlan {
    /// At least one model, one more job for each, and a queue that holds them.
    pub open spec fn wf(self) -> bool {
        &&& 1 <= self.width
        &&& self.prefetch == if self.width > usize::MAX / 2 {
            usize::MAX
        } else {
            (2 * self.width) as usize
        }
        &&& self.cap == if self.prefetch >= 8 {
            self.prefetch
        } else {
            8
        }
    }

    /// Plan for a backend that keeps `live_width` models in flight.
    pub fn new(live_width: usize) -> (plan: Self)
        ensures
            plan.wf(),
            plan.width == if live_width == 0 {
                1
            } else {
                live_width
            },
    {
        let width: usize = if live_width == 0 {
            1
        } else {
            live_width
        };
        let prefetch: usize = if width > usize::MAX / 2 {
            usize::MAX
        } else {
            2 * width
        };
        let cap: usize = if prefetch >= 8 {
            prefetch
        } else {
            8
        };
        StreamPlan { width, prefetch, cap }
    }

    /// The credits that a session asks for.
    pub open spec fn granted(self, queue_depth: u32) -> u32 {
        let wanted = if queue_depth >= capped_count(self.prefetch) {
            queue_depth
        } else {
            capped_count(self.prefetch)
        };
        if wanted <= self.cap {
            wanted
        } else {
            self.cap as u32
        }
    }

    /// The credits to ask for: enough to keep every model's next job loaded,
    /// and never more than the job queue holds, so that reading a job never
    /// waits for a full queue.
    pub fn grant(&self, queue_depth: u32) -> (credits: u32)
        ensures
            credits == self.granted(queue_depth),
    {
        let prefetch: u32 = cap_count(self.prefetch);
        let wanted: u32 = if queue_depth >= prefetch {
            queue_depth
        } else {
            prefetch
        };
        if wanted as u64 <= self.cap as u64 {
            wanted
        } else {
            self.cap as u32
        }
    }
}

/// A grant never exceeds the job queue, and covers the jobs that the backend
/// wants loaded.
pub proof fn law_a_grant_fits_the_queue(plan: StreamPlan, queue_depth: u32)
    requires
        plan.wf(),
    ensures
        plan.granted(queue_depth) <= plan.cap,
        capped_count(plan.prefetch) <= plan.granted(queue_depth),
        queue_depth <= plan.cap ==> queue_depth <= plan.granted(queue_depth),
{
}

/// Milliseconds that a session has for its shutdown when nobody says.
pub const DEFAULT_GRACE_MS: u64 = 5000;

/// A topology for drawing problems over it, or why none can be drawn.
#[derive(Debug)]
pub struct LeaseTopology {
    pub hash: Vec<u8>,
    pub graph: Result<LeaseGraph, RejectReason>,
}

/// What a session knows.
pub struct Session {
    /// `Welcome` is the first message of a session. Until it arrives, nothing
    /// has agreed on a protocol version.
    pub welcome_seen: bool,
    pub grace_ms: u64,
    pub num_sweeps: usize,
    pub topology: Option<TopologyCache>,
    pub lease_topology: Option<LeaseTopology>,
    pub target: Option<SessionTarget>,
    pub cancel: CancelToken,
    pub plan: StreamPlan,
}

/// What the session's replies say of the solver at this moment.
#[derive(Clone, Copy, Debug)]
pub struct Live<'a> {
    pub miner_id: &'a str,
    pub id: &'a BackendIdentity,
    pub declared_width: u32,
    pub accepts_warm_start: bool,
    pub jobs_done: u64,
    /// Bit pattern of the utilization, a double.
    pub utilization: u64,
}

/// How the read loop of a session ended.
#[derive(Clone, Debug)]
pub enum End {
    /// The coordinator asked for it.
    Shutdown,
    /// The coordinator speaks another protocol version.
    BadWelcome(u32),
    /// The session broke.
    Exit(SessionExit),
    /// The outbound half stopped before the coordinator asked for it.
    WriterGone,
}

/// What to do about one message.
#[derive(Debug)]
pub enum Step {
    /// Send these and read on.
    Send(Vec<MinerMsg>),
    /// Hand the text to the backend, log what is wrong with its sweeps, then
    /// send these and read on.
    Configure(String, Option<SweepsComplaint>, Vec<MinerMsg>),
    /// Admit and sample this job.
    Job(Job),
    /// Admit and expand this salt range.
    Lease(Job),
    /// Send these and stop.
    Stop(Vec<MinerMsg>, End),
}

/// `step` sends `want` and reads on.
pub open spec fn sends(step: Step, want: Seq<Reply>) -> bool {
    step matches Step::Send(out) && replies(out@) == want
}

/// The answer to a ping and to a cancel.
pub open spec fn status_reply(live: Live, abandoned_generation: u64) -> Reply {
    Reply::Status {
        miner_id: live.miner_id@,
        utilization: live.utilization,
        jobs_done: live.jobs_done,
        abandoned_generation,
    }
}

/// What is said of a message that came before `Welcome`.
pub open spec fn too_early_text(msg: Option<CoordMsg>) -> Seq<char> {
    "coordinator sent "@ + msg_name(msg) + " before Welcome"@
}

/// `step` refuses the session with `reason`, and says so to the coordinator.
pub open spec fn refuses(step: Step, code: ExitCode, reason: Seq<char>) -> bool {
    step matches Step::Stop(out, _) && replies(out@) == seq![
        Reply::Fatal { exit_code: code.number(), reason, restart_required: false },
    ]
}

/// `step` and `after` are what becomes of `before` on `msg`.
pub open spec fn stepped(
    before: Session,
    msg: Option<CoordMsg>,
    live: Live,
    after: Session,
    step: Step,
) -> bool {
    match msg {
        // A payload that this version does not know is passed over.
        None => after == before && sends(step, seq![]),
        Some(m) => if !before.welcome_seen && !(m is Welcome) {
            &&& after == before
            &&& refuses(step, ExitCode::ConfigInvalid, too_early_text(msg))
            &&& step->Stop_1 matches End::Exit(exit)
            &&& exit.code == ExitCode::ConfigInvalid
            &&& exit.detail@ == too_early_text(msg)
        } else {
            match m {
                CoordMsg::Welcome(Some(fault)) => {
                    &&& after == before
                    &&& refuses(step, ExitCode::ConfigInvalid, fault.text@)
                    &&& step->Stop_1 == End::BadWelcome(fault.version)
                },
                CoordMsg::Welcome(None) => {
                    &&& after == (Session { welcome_seen: true, ..before })
                    &&& sends(step, seq![])
                },
                CoordMsg::Configure { backend_toml, queue_depth } => {
                    &&& after == (Session {
                        num_sweeps: configured_sweeps(toml_top_level(backend_toml@)),
                        ..before
                    })
                    &&& step matches Step::Configure(text, wrong, out)
                    &&& text == backend_toml
                    &&& wrong == complaint(toml_top_level(backend_toml@))
                    &&& replies(out@) == seq![
                        Reply::Ready,
                        Reply::Credits(before.plan.granted(queue_depth)),
                    ]
                },
                CoordMsg::Topology(topology, graph) => {
                    &&& after.topology matches Some(cache)
                    &&& caches(cache, topology)
                    &&& after.lease_topology matches Some(lease)
                    &&& lease.hash == topology.hash
                    &&& lease.graph == graph
                    &&& after == (Session {
                        topology: after.topology,
                        lease_topology: after.lease_topology,
                        ..before
                    })
                    &&& sends(step, seq![])
                },
                CoordMsg::SetTarget(s) => {
                    &&& after == (Session {
                        target: Some(
                            SessionTarget {
                                max_energy_milli: s.max_energy_milli,
                                min_solutions: s.min_solutions,
                                min_diversity_milli: s.min_diversity_milli,
                                max_proof_solutions: s.max_proof_solutions,
                                num_reads: s.num_reads,
                                num_sweeps: s.num_sweeps,
                            },
                        ),
                        ..before
                    })
                    &&& sends(step, seq![])
                },
                CoordMsg::Job(job) => {
                    &&& after == before
                    &&& step == if job.kind == Some(JobKind::IsingGenerate) {
                        Step::Lease(job)
                    } else {
                        Step::Job(job)
                    }
                },
                CoordMsg::Cancel(generation) => {
                    let point = raised(before.cancel.point, generation);
                    &&& after == (Session { cancel: CancelToken { point }, ..before })
                    &&& sends(step, seq![status_reply(live, point)])
                },
                CoordMsg::Ping => {
                    &&& after == before
                    &&& sends(step, seq![status_reply(live, before.cancel.point)])
                },
                CoordMsg::GetCapabilities => {
                    &&& after == before
                    &&& sends(
                        step,
                        seq![
                            Reply::Capabilities(
                                full(
                                    *live.id,
                                    session_width(live.declared_width, before.plan.width),
                                    live.accepts_warm_start,
                                ),
                            ),
                        ],
                    )
                },
                CoordMsg::Shutdown(grace_ms) => {
                    &&& after == (Session {
                        grace_ms: if grace_ms == 0 {
                            DEFAULT_GRACE_MS
                        } else {
                            grace_ms as u64
                        },
                        ..before
                    })
                    &&& step matches Step::Stop(out, end)
                    &&& replies(out@) == Seq::<Reply>::empty()
                    &&& end == End::Shutdown
                },
            }
        },
    }
}

fn sending_nothing() -> (step: Step)
    ensures
        sends(step, seq![]),
{
    let out: Vec<MinerMsg> = Vec::new();
    assert(replies(out@) =~= Seq::<Reply>::empty());
    Step::Send(out)
}

fn sending(msg: MinerMsg) -> (step: Step)
    ensures
        sends(step, seq![msg@]),
{
    let mut out: Vec<MinerMsg> = Vec::new();
    out.push(msg);
    assert(replies(out@) =~= seq![msg@]);
    Step::Send(out)
}

fn refusing(code: ExitCode, reason: &str, end: End) -> (step: Step)
    ensures
        refuses(step, code, reason@),
        step->Stop_1 == end,
{
    let mut out: Vec<MinerMsg> = Vec::new();
    out.push(fatal_msg(code, reason.to_owned()));
    assert(replies(out@) =~= seq![
        Reply::Fatal { exit_code: code.number(), reason: reason@, restart_required: false },
    ]);
    Step::Stop(out, end)
}

impl Session {
    /// A session before its first message.
    pub fn new(live_width: usize) -> (session: Self)
        ensures
            !session.welcome_seen,
            session.grace_ms == DEFAULT_GRACE_MS,
            session.num_sweeps == DEFAULT_NUM_SWEEPS,
            session.topology is None,
            session.lease_topology is None,
            session.target is None,
            session.cancel.point == 0,
            session.plan.wf(),
            session.plan.width == if live_width == 0 {
                1
            } else {
                live_width
            },
    {
        Session {
            welcome_seen: false,
            grace_ms: DEFAULT_GRACE_MS,
            num_sweeps: DEFAULT_NUM_SWEEPS,
            topology: None,
            lease_topology: None,
            target: None,
            cancel: CancelToken { point: 0 },
            plan: StreamPlan::new(live_width),
        }
    }

    /// Take one message from the coordinator.
    pub fn handle(&mut self, msg: Option<CoordMsg>, live: &Live<'_>) -> (step: Step)
        ensures
            stepped(*old(self), msg, *live, *final(self), step),
    {
        let too_early: bool = match &msg {
            None | Some(CoordMsg::Welcome(_)) => false,
            Some(_) => !self.welcome_seen,
        };
        if too_early {
            let mut detail: String = "coordinator sent ".to_owned();
            detail.append(coord_msg_name(&msg));
            detail.append(" before Welcome");
            let end: End = End::Exit(
                SessionExit { code: ExitCode::ConfigInvalid, detail: detail.as_str().to_owned() },
            );
            return refusing(ExitCode::ConfigInvalid, detail.as_str(), end);
        }
        match msg {
            None => sending_nothing(),
            Some(CoordMsg::Welcome(Some(fault))) => refusing(
                SessionError::BadWelcome(fault.version).exit_code(),
                fault.text.as_str(),
                End::BadWelcome(fault.version),
            ),
            Some(CoordMsg::Welcome(None)) => {
                self.welcome_seen = true;
                sending_nothing()
            },
            Some(CoordMsg::Configure { backend_toml, queue_depth }) => {
                self.num_sweeps = num_sweeps_from_toml(backend_toml.as_str());
                let wrong: Option<SweepsComplaint> = sweeps_complaint_of_toml(
                    backend_toml.as_str(),
                );
                let mut out: Vec<MinerMsg> = Vec::new();
                out.push(MinerMsg::Ready);
                out.push(MinerMsg::JobRequest(self.plan.grant(queue_depth)));
                assert(replies(out@) =~= seq![
                    Reply::Ready,
                    Reply::Credits(old(self).plan.granted(queue_depth)),
                ]);
                Step::Configure(backend_toml, wrong, out)
            },
            Some(CoordMsg::Topology(topology, graph)) => {
                self.topology = Some(TopologyCache::from_topology(&topology));
                self.lease_topology = Some(LeaseTopology { hash: topology.hash, graph });
                sending_nothing()
            },
            Some(CoordMsg::SetTarget(s)) => {
                self.target = Some(SessionTarget::from_set_target(&s));
                sending_nothing()
            },
            Some(CoordMsg::Job(job)) => {
                let generates: bool = match job.kind {
                    Some(JobKind::IsingGenerate) => true,
                    _ => false,
                };
                if generates {
                    Step::Lease(job)
                } else {
                    Step::Job(job)
                }
            },
            Some(CoordMsg::Cancel(generation)) => {
                self.cancel.cancel_through(generation);
                sending(
                    status_msg(
                        live.miner_id,
                        live.jobs_done,
                        live.utilization,
                        self.cancel.abandoned(),
                    ),
                )
            },
            Some(CoordMsg::Ping) => sending(
                status_msg(
                    live.miner_id,
                    live.jobs_done,
                    live.utilization,
                    self.cancel.abandoned(),
                ),
            ),
            Some(CoordMsg::GetCapabilities) => sending(
                MinerMsg::Capabilities(
                    session_capabilities(
                        live.id,
                        live.declared_width,
                        self.plan.width,
                        live.accepts_warm_start,
                    ),
                ),
            ),
            Some(CoordMsg::Shutdown(grace_ms)) => {
                self.grace_ms = if grace_ms == 0 {
                    DEFAULT_GRACE_MS
                } else {
                    grace_ms as u64
                };
                let out: Vec<MinerMsg> = Vec::new();
                assert(replies(out@) =~= Seq::<Reply>::empty());
                Step::Stop(out, End::Shutdown)
            },
        }
    }

    /// Why a session ends when the coordinator closes the stream without
    /// `Shutdown`. Before `Welcome` that is how a refused token looks: the
    /// coordinator reads the Hello and drops the stream.
    pub fn stream_closed(&self) -> (exit: SessionExit)
        ensures
            exit.code == if self.welcome_seen {
                ExitCode::InternalFatal
            } else {
                ExitCode::TokenRejected
            },
            exit.detail@ == if self.welcome_seen {
                "coordinator closed the session stream without Shutdown"@
            } else {
                "coordinator closed the session stream before Welcome; the session token was rejected"@
            },
    {
        if self.welcome_seen {
            SessionExit {
                code: ExitCode::InternalFatal,
                detail: "coordinator closed the session stream without Shutdown".to_owned(),
            }
        } else {
            SessionExit {
                code: ExitCode::TokenRejected,
                detail:
                    "coordinator closed the session stream before Welcome; the session token was rejected".to_owned(),
            }
        }
    }
}

/// Why a session ends when its stream fails. A transport that refuses the
/// caller is how a coordinator refuses a token once the stream is open.
pub fn stream_failed(refused: bool, status: &str) -> (exit: SessionExit)
    ensures
        exit.code == if refused {
            ExitCode::TokenRejected
        } else {
            ExitCode::InternalFatal
        },
        exit.detail@ == "session stream failed: "@ + status@,
{
    let mut detail: String = "session stream failed: ".to_owned();
    detail.append(status);
    let code: ExitCode = if refused {
        ExitCode::TokenRejected
    } else {
        ExitCode::InternalFatal
    };
    SessionExit { code, detail }
}

/// The replies to a job that is refused before it is sampled. Refusing it is
/// terminal, so it gives back its credit as a completion does.
pub fn refuse_job(reject: MinerMsg) -> (out: Vec<MinerMsg>)
    ensures
        replies(out@) == seq![reject@, Reply::Credits(1)],
{
    let mut out: Vec<MinerMsg> = Vec::new();
    out.push(reject);
    out.push(MinerMsg::JobRequest(1));
    assert(replies(out@) =~= seq![reject@, Reply::Credits(1)]);
    out
}

/// What is said of a device that will not recover.
pub open spec fn device_fault_text() -> Seq<char> {
    "device fault: the backend reported an unrecoverable state"@
}

/// What is said of an outbound half that stopped by itself.
pub open spec fn writer_gone_text() -> Seq<char> {
    "outbound writer stopped before Shutdown"@
}

/// How a session ended, by severity: a sampler that panicked, an outbound half
/// that failed, a handshake or protocol failure, a device fault, an outbound
/// half that stopped before the coordinator asked for it. `Shutdown` is the only
/// clean end.
pub fn conclude(
    sampler_panic: Option<String>,
    writer_failure: Option<String>,
    end: End,
    device_faulted: bool,
) -> (outcome: Result<(), SessionFailure>)
    ensures
        outcome is Ok <==> end is Shutdown && !device_faulted && sampler_panic is None
            && writer_failure is None,
        ({
            let fatal = |detail: Seq<char>| outcome matches Err(SessionFailure::Exit(exit))
                && exit.code == ExitCode::InternalFatal && exit.detail@ == detail;
            match (sampler_panic, writer_failure, end) {
                (Some(payload), _, _) => fatal("sampler thread panicked: "@ + payload@),
                (None, Some(detail), _) => fatal(detail@),
                (None, None, End::BadWelcome(version)) => outcome == Err::<(), SessionFailure>(
                    SessionFailure::Session(SessionError::BadWelcome(version)),
                ),
                (None, None, End::Exit(exit)) => outcome == Err::<(), SessionFailure>(
                    SessionFailure::Exit(exit),
                ),
                (None, None, End::WriterGone) => fatal(
                    if device_faulted {
                        device_fault_text()
                    } else {
                        writer_gone_text()
                    },
                ),
                (None, None, End::Shutdown) => if device_faulted {
                    fatal(device_fault_text())
                } else {
                    outcome is Ok
                },
            }
        }),
{
    match sampler_panic {
        Some(payload) => {
            let mut detail: String = "sampler thread panicked: ".to_owned();
            detail.append(payload.as_str());
            return Err(SessionFailure::Exit(SessionExit { code: ExitCode::InternalFatal, detail }));
        },
        None => {},
    }
    match writer_failure {
        Some(detail) => {
            return Err(SessionFailure::Exit(SessionExit { code: ExitCode::InternalFatal, detail }));
        },
        None => {},
    }
    match end {
        End::BadWelcome(version) => Err(SessionFailure::Session(SessionError::BadWelcome(version))),
        End::Exit(exit) => Err(SessionFailure::Exit(exit)),
        End::Shutdown | End::WriterGone => {
            if device_faulted {
                return Err(
                    SessionFailure::Exit(
                        SessionExit {
                            code: ExitCode::InternalFatal,
                            detail:
                                "device fault: the backend reported an unrecoverable state".to_owned(),
                        },
                    ),
                );
            }
            match end {
                End::WriterGone => Err(
                    SessionFailure::Exit(
                        SessionExit {
                            code: ExitCode::InternalFatal,
                            detail: "outbound writer stopped before Shutdown".to_owned(),
                        },
                    ),
                ),
                _ => Ok(()),
            }
        },
    }
}

/// Only a `Shutdown` from a coordinator that was welcomed ends a session
/// cleanly.
pub proof fn law_only_shutdown_is_a_clean_end(
    before: Session,
    msg: Option<CoordMsg>,
    live: Live,
    after: Session,
    step: Step,
)
    requires
        stepped(before, msg, live, after, step),
    ensures
        (step matches Step::Stop(_, end) && end is Shutdown) <==> (msg matches Some(m) && m
            is Shutdown && before.welcome_seen),
        step matches Step::Stop(_, end) ==> (end_code(end) == ExitCode::Clean <==> end is Shutdown),
{
}

/// Before `Welcome` nothing but `Welcome` is acted on: the state stands still,
/// and the session ends unless the message is one that this version does not
/// know.
pub proof fn law_nothing_precedes_welcome(
    before: Session,
    msg: Option<CoordMsg>,
    live: Live,
    after: Session,
    step: Step,
)
    requires
        stepped(before, msg, live, after, step),
        !before.welcome_seen,
        !(msg matches Some(m) && m is Welcome),
    ensures
        after == before,
        step is Stop || (msg is None && sends(step, seq![])),
{
}

/// No message lowers the cancellation point, forgets the handshake, or changes
/// the plan that grants were made under.
pub proof fn law_a_session_only_moves_on(
    before: Session,
    msg: Option<CoordMsg>,
    live: Live,
    after: Session,
    step: Step,
)
    requires
        stepped(before, msg, live, after, step),
    ensures
        before.cancel.point <= after.cancel.point,
        before.welcome_seen ==> after.welcome_seen,
        after.plan == before.plan,
        before.target is Some ==> after.target is Some,
        before.topology is Some ==> after.topology is Some,
{
}

/// An acknowledged cancel names the point that is then in force, and a ping
/// after it names the same one.
pub proof fn law_status_names_the_point_in_force(
    before: Session,
    generation: u64,
    live: Live,
    between: Session,
    ack: Step,
    after: Session,
    pong: Step,
)
    requires
        before.welcome_seen,
        stepped(before, Some(CoordMsg::Cancel(generation)), live, between, ack),
        stepped(between, Some(CoordMsg::Ping), live, after, pong),
    ensures
        generation <= between.cancel.point,
        sends(ack, seq![status_reply(live, between.cancel.point)]),
        sends(pong, seq![status_reply(live, between.cancel.point)]),
{
}

/// The exit code that an end of the read loop stands for.
pub open spec fn end_code(end: End) -> ExitCode {
    match end {
        End::BadWelcome(version) => SessionError::BadWelcome(version).exit(),
        End::Exit(exit) => exit.code,
        End::WriterGone => ExitCode::InternalFatal,
        End::Shutdown => ExitCode::Clean,
    }
}

/// A refused session is answered: every stop that the coordinator did not ask
/// for sends it exactly one `Fatal`, with the exit code that the process ends
/// with.
pub proof fn law_a_refusal_is_answered(
    before: Session,
    msg: Option<CoordMsg>,
    live: Live,
    after: Session,
    step: Step,
)
    requires
        stepped(before, msg, live, after, step),
        step is Stop,
        !(msg matches Some(CoordMsg::Shutdown(_)) && before.welcome_seen),
    ensures
        exists|reason: Seq<char>| #[trigger]
            refuses(step, end_code(step->Stop_1), reason),
        step->Stop_1 is BadWelcome || step->Stop_1 is Exit,
{
    if !before.welcome_seen && !(msg->0 is Welcome) {
        assert(refuses(step, ExitCode::ConfigInvalid, too_early_text(msg)));
    } else {
        let fault = msg->0->Welcome_0->0;
        assert(refuses(step, ExitCode::ConfigInvalid, fault.text@));
    }
}

/// A plan keeps one job in flight and one more loaded for every model, as far as
/// numbers go, in a queue that holds them all and never fewer than eight. A
/// grant is exactly what the coordinator offers, unless that is fewer than the
/// jobs to keep loaded or more than the queue holds.
pub proof fn law_a_plan_keeps_a_job_ahead(plan: StreamPlan, queue_depth: u32)
    requires
        plan.wf(),
    ensures
        plan.width >= 1,
        plan.width <= usize::MAX / 2 ==> plan.prefetch == 2 * plan.width,
        plan.prefetch >= plan.width,
        plan.cap >= plan.prefetch,
        plan.cap >= 8,
        plan.cap == plan.prefetch || plan.cap == 8,
        plan.prefetch <= queue_depth <= plan.cap ==> plan.granted(queue_depth) == queue_depth,
        queue_depth <= plan.prefetch <= u32::MAX ==> plan.granted(queue_depth) == plan.prefetch,
        queue_depth >= plan.cap && plan.cap <= u32::MAX ==> plan.granted(queue_depth) == plan.cap,
{
}

/// A target is taken as it was sent, field by field, and changes nothing else.
pub proof fn law_a_target_is_taken_as_sent(
    before: Session,
    sent: SetTarget,
    live: Live,
    after: Session,
    step: Step,
)
    requires
        before.welcome_seen,
        stepped(before, Some(CoordMsg::SetTarget(sent)), live, after, step),
    ensures
        after == (Session { target: after.target, ..before }),
        after.target matches Some(t) && t.max_energy_milli == sent.max_energy_milli
            && t.min_solutions == sent.min_solutions && t.min_diversity_milli
            == sent.min_diversity_milli && t.max_proof_solutions == sent.max_proof_solutions
            && t.num_reads == sent.num_reads && t.num_sweeps == sent.num_sweeps,
        sends(step, seq![]),
{
}

/// A configuration is handed on as it was sent and answered with the report that
/// the solver is ready, then with a grant that the queue holds. Of the session
/// it changes the sweeps alone.
pub proof fn law_a_configuration_is_answered(
    before: Session,
    backend_toml: String,
    queue_depth: u32,
    live: Live,
    after: Session,
    step: Step,
)
    requires
        before.welcome_seen,
        before.plan.wf(),
        stepped(
            before,
            Some(CoordMsg::Configure { backend_toml, queue_depth }),
            live,
            after,
            step,
        ),
    ensures
        after == (Session { num_sweeps: after.num_sweeps, ..before }),
        step is Configure,
        step matches Step::Configure(text, wrong, out) ==> {
            &&& text == backend_toml
            &&& replies(out@).len() == 2
            &&& replies(out@)[0] == Reply::Ready
            &&& replies(out@)[1] is Credits
            &&& replies(out@)[1]->Credits_0 <= before.plan.cap
            &&& before.plan.prefetch <= queue_depth <= before.plan.cap
                ==> replies(out@)[1]->Credits_0 == queue_depth
            &&& wrong is Some ==> after.num_sweeps == 64
        },
{
    law_a_grant_fits_the_queue(before.plan, queue_depth);
}

/// A job is handed on as it was sent, a salt range apart from the rest, and a
/// topology is cached as it was sent. Neither is answered at once.
pub proof fn law_jobs_and_topologies_are_taken_as_sent(
    before: Session,
    job: Job,
    topology: Topology,
    graph: Result<LeaseGraph, RejectReason>,
    live: Live,
    after_job: Session,
    job_step: Step,
    after_topology: Session,
    topology_step: Step,
)
    requires
        before.welcome_seen,
        stepped(before, Some(CoordMsg::Job(job)), live, after_job, job_step),
        stepped(
            before,
            Some(CoordMsg::Topology(topology, graph)),
            live,
            after_topology,
            topology_step,
        ),
    ensures
        after_job == before,
        job.kind == Some(JobKind::IsingGenerate) ==> job_step == Step::Lease(job),
        job.kind != Some(JobKind::IsingGenerate) ==> job_step == Step::Job(job),
        sends(topology_step, seq![]),
        after_topology.topology is Some && caches(after_topology.topology->0, topology),
        after_topology.lease_topology is Some,
        after_topology.lease_topology->0.hash@ == topology.hash@,
        after_topology.lease_topology->0.graph == graph,
        after_topology == (Session {
            topology: after_topology.topology,
            lease_topology: after_topology.lease_topology,
            ..before
        }),
{
}

/// A shutdown grants the time that the coordinator names, and the default when
/// it names none.
pub proof fn law_a_shutdown_grants_its_time(
    before: Session,
    grace_ms: u32,
    live: Live,
    after: Session,
    step: Step,
)
    requires
        before.welcome_seen,
        stepped(before, Some(CoordMsg::Shutdown(grace_ms)), live, after, step),
    ensures
        grace_ms != 0 ==> after.grace_ms == grace_ms,
        grace_ms == 0 ==> after.grace_ms == 5000,
        after == (Session { grace_ms: after.grace_ms, ..before }),
        step matches Step::Stop(out, end) && out@.len() == 0 && end is Shutdown,
{
    assert(replies(step->Stop_0@).len() == 0);
}

/// Wherever it stands, a word on the session token makes the exit that of a
/// refused token, and otherwise a word on the protocol version makes it that of
/// a configuration that does not fit.
pub proof fn law_the_text_decides_the_exit(before: Seq<char>, behind: Seq<char>, text: Seq<char>)
    ensures
        exit_from_text(before + "QUIP_SESSION_TOKEN"@ + behind) == ExitCode::TokenRejected,
        exit_from_text(before + "session token"@ + behind) == ExitCode::TokenRejected,
        exit_from_text(before + "unexpected protocol version"@ + behind)
            != ExitCode::InternalFatal,
        exit_from_text(text) == ExitCode::InternalFatal <==> !contains_text(
            text,
            "QUIP_SESSION_TOKEN"@,
        ) && !contains_text(text, "session token"@) && !contains_text(
            text,
            "unexpected protocol version"@,
        ),
{
    law_a_text_holds_its_middle(before, "QUIP_SESSION_TOKEN"@, behind, text);
    law_a_text_holds_its_middle(before, "session token"@, behind, text);
    law_a_text_holds_its_middle(before, "unexpected protocol version"@, behind, text);
}

/// A welcome opens the session and is not answered. One of another protocol
/// version changes nothing and ends it.
pub proof fn law_a_welcome_opens_the_session(
    before: Session,
    fault: Option<WelcomeFault>,
    live: Live,
    after: Session,
    step: Step,
)
    requires
        stepped(before, Some(CoordMsg::Welcome(fault)), live, after, step),
    ensures
        fault is None ==> after == (Session { welcome_seen: true, ..before }) && sends(step, seq![]),
        fault matches Some(f) ==> {
            &&& after == before
            &&& step is Stop
            &&& step->Stop_1 == End::BadWelcome(f.version)
            &&& replies(step->Stop_0@) == seq![
                Reply::Fatal { exit_code: 64, reason: f.text@, restart_required: false },
            ]
        },
{
}

/// A ping is answered with how the solver stands at that moment, and a question
/// for its capabilities with what it is, at the width that it declares or, when
/// it declares none, at the one it runs with.
pub proof fn law_questions_are_answered_as_asked(
    before: Session,
    live: Live,
    after_ping: Session,
    pong: Step,
    after_question: Session,
    answer: Step,
)
    requires
        before.welcome_seen,
        stepped(before, Some(CoordMsg::Ping), live, after_ping, pong),
        stepped(before, Some(CoordMsg::GetCapabilities), live, after_question, answer),
    ensures
        after_ping == before,
        after_question == before,
        sends(
            pong,
            seq![
                Reply::Status {
                    miner_id: live.miner_id@,
                    utilization: live.utilization,
                    jobs_done: live.jobs_done,
                    abandoned_generation: before.cancel.point,
                },
            ],
        ),
        answer matches Step::Send(out) && replies(out@).len() == 1 && replies(out@)[0]
            is Capabilities,
        answer matches Step::Send(out) ==> (replies(out@)[0] matches Reply::Capabilities(caps)
            ==> {
            &&& caps.backend == live.id.backend@
            &&& caps.max_nodes == live.id.max_nodes
            &&& caps.max_edges == live.id.max_edges
            &&& live.declared_width != 0 ==> caps.stream_width == live.declared_width
            &&& live.declared_width == 0 && before.plan.width <= u32::MAX ==> caps.stream_width
                == before.plan.width
        }),
{
}

} // verus!
