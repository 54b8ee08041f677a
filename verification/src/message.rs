//! The messages of a session, as plain values.
use crate::encoding::CoefficientEncoding;
use vstd::prelude::*;

verus! {

/// Why a job was refused.
#[derive(Clone, Copy, Debug, PartialEq, Eq, Structural)]
pub enum RejectReason {
    UnsupportedKind,
    TooLarge,
    Malformed,
    Expired,
    Overloaded,
    TopologyMissing,
    TopologyMismatch,
    TargetMissing,
}

/// What a job asks for.
#[derive(Clone, Copy, Debug, PartialEq, Eq, Structural)]
pub enum JobKind {
    /// Sample one given problem.
    IsingSample,
    /// Draw and sample the problems of a salt range.
    IsingGenerate,
}

/// How the problems of a salt range are drawn.
#[derive(Clone, Copy, Debug, PartialEq, Eq, Structural)]
pub enum GeneratorAlgorithm {
    Blake3Chacha8V1,
}

/// Undirected edges as two parallel lists of endpoints.
#[derive(Clone, Debug)]
pub struct EdgeList {
    pub u: Vec<u32>,
    pub v: Vec<u32>,
}

/// Where the edges of a problem come from.
#[derive(Clone, Debug)]
pub enum ProblemGraph {
    /// Edges over dense positions `0..n`.
    Edges(EdgeList),
    /// The cached topology with this hash.
    TopologyHash(Vec<u8>),
}

/// One Ising problem as it stands on the wire.
#[derive(Clone, Debug)]
pub struct IsingProblem {
    pub graph: Option<ProblemGraph>,
    /// `None` when the encoding number is not one that this version knows.
    pub encoding: Option<CoefficientEncoding>,
    pub scale: u32,
    /// Packed biases.
    pub h: Vec<u8>,
    /// Packed couplings, one per edge.
    pub j: Vec<u8>,
    /// Requested reads. `0` means unset.
    pub num_reads: u32,
    /// Requested sweeps. `0` means unset.
    pub num_sweeps: u32,
    /// Packed start states, best first.
    pub initial_spins: Vec<Vec<u8>>,
    /// Inverse temperature to start from, in thousandths. `0` means unset.
    pub start_beta_milli: u32,
    /// Anneal fraction to back off to, in thousandths. `0` means unset.
    pub reversal_s_milli: u32,
    /// Pause at the reversal point. `0` means unset.
    pub reversal_pause_us: u32,
}

/// What a salt-range job draws its problems from.
#[derive(Clone, Debug)]
pub struct GeneratorRequest {
    /// Hash of the topology that the problems are drawn over.
    pub topology_hash: Vec<u8>,
    /// How many salts the range holds, or `None` when the request does not
    /// describe a range.
    pub salt_count: Option<u64>,
}

/// One unit of work from the coordinator.
#[derive(Clone, Debug)]
pub struct Job {
    pub job_id: Vec<u8>,
    /// `None` when the kind number is not one that this version knows.
    pub kind: Option<JobKind>,
    /// Chain generation. `0` marks a job that a reseed never cancels.
    pub generation: u64,
    /// Milliseconds since the Unix epoch. `0` means no deadline.
    pub deadline_ms: u64,
    pub ising: Option<IsingProblem>,
    pub generator: Option<GeneratorRequest>,
}

/// The graph that topology-hash jobs name.
#[derive(Clone, Debug)]
pub struct Topology {
    pub hash: Vec<u8>,
    /// Native node ids, in dense order.
    pub nodes: Vec<u32>,
    /// Edges over native node ids.
    pub edges: Option<EdgeList>,
    pub allowed_h_milli: Vec<i32>,
    pub allowed_j_milli: Vec<i32>,
}

/// A topology over dense positions, for drawing problems over it.
#[derive(Debug)]
pub struct LeaseGraph {
    pub num_nodes: usize,
    pub edges: Vec<(usize, usize)>,
    pub allowed_h_milli: Vec<i32>,
    pub allowed_j_milli: Vec<i32>,
}

/// The difficulty that the coordinator asks for.
#[derive(Clone, Copy, Debug, PartialEq, Eq, Structural)]
pub struct SetTarget {
    pub max_energy_milli: i64,
    pub min_solutions: u32,
    pub min_diversity_milli: u32,
    pub max_proof_solutions: u32,
    pub num_reads: u32,
    pub num_sweeps: u32,
}

/// What the handshake check found wrong with a `Welcome`.
#[derive(Clone, Debug)]
pub struct WelcomeFault {
    /// The protocol version that the coordinator named.
    pub version: u32,
    /// What the check says of it.
    pub text: String,
}

/// A message from the coordinator.
#[derive(Debug)]
pub enum CoordMsg {
    /// The answer to Hello, with what the handshake check found wrong.
    Welcome(Option<WelcomeFault>),
    Configure {
        /// The backend's own configuration, verbatim.
        backend_toml: String,
        /// How many jobs the coordinator wants queued.
        queue_depth: u32,
    },
    /// The graph that later jobs name, and the same graph for drawing
    /// problems over it, or why none can be drawn.
    Topology(Topology, Result<LeaseGraph, RejectReason>),
    SetTarget(SetTarget),
    Job(Job),
    /// Abandon every generation up to this one.
    Cancel(u64),
    Ping,
    GetCapabilities,
    /// Stop, within this many milliseconds. `0` leaves the time to the solver.
    Shutdown(u32),
}

/// One read, packed for the wire.
#[derive(Clone, Debug)]
pub struct Solution {
    pub spins: Vec<u8>,
    pub energy_milli: i64,
}

/// What the sampler spent on a job.
#[derive(Clone, Copy, Debug, PartialEq, Eq, Structural)]
pub struct SamplerMeta {
    pub reads: u32,
    pub sweeps: u32,
    pub device_access_time_us: u64,
    pub qpu_access_us: u64,
}

/// The reads of one finished job.
#[derive(Clone, Debug)]
pub struct JobResult {
    pub job_id: Vec<u8>,
    pub salt: Vec<u8>,
    pub nonce: Vec<u8>,
    pub solutions: Vec<Solution>,
    pub meta: SamplerMeta,
}

/// The answer to a ping or a cancel.
#[derive(Clone, Debug)]
pub struct Status {
    pub miner_id: String,
    /// Bit pattern of the utilization, a double.
    pub utilization: u64,
    pub jobs_done: u64,
    pub abandoned_generation: u64,
}

/// What this solver can do.
#[derive(Clone, Debug)]
pub struct Capabilities {
    pub backend: String,
    pub algorithm: String,
    pub supported_kinds: Vec<JobKind>,
    pub max_nodes: u32,
    pub max_edges: u32,
    pub features: Vec<String>,
    pub protocol_version: u32,
    pub stream_width: u32,
    pub native_topology_hash: Option<Vec<u8>>,
    pub encodings: Vec<CoefficientEncoding>,
    pub generators: Vec<GeneratorAlgorithm>,
}

/// Why the session ends.
#[derive(Clone, Debug)]
pub struct Fatal {
    pub exit_code: u32,
    pub reason: String,
    pub restart_required: bool,
}

/// The end of a salt range.
#[derive(Clone, Debug)]
pub struct LeaseDone {
    pub job_id: Vec<u8>,
    pub salts_done: u64,
    pub best_energy_milli: i64,
}

/// A message to the coordinator.
#[derive(Clone, Debug)]
pub enum MinerMsg {
    Ready,
    /// Ask for this many more jobs.
    JobRequest(u32),
    Result(JobResult),
    Reject(Vec<u8>, RejectReason),
    Status(Status),
    Capabilities(Capabilities),
    Fatal(Fatal),
    LeaseDone(LeaseDone),
}

/// What a message says.
pub ghost enum Reply {
    Ready,
    Credits(u32),
    Result {
        job_id: Seq<u8>,
        salt: Seq<u8>,
        nonce: Seq<u8>,
        solutions: Seq<(Seq<u8>, i64)>,
        meta: SamplerMeta,
    },
    Reject(Seq<u8>, RejectReason),
    Status { miner_id: Seq<char>, utilization: u64, jobs_done: u64, abandoned_generation: u64 },
    Capabilities(Advertised),
    Fatal { exit_code: u32, reason: Seq<char>, restart_required: bool },
    LeaseDone { job_id: Seq<u8>, salts_done: u64, best_energy_milli: i64 },
}

/// What a [`Capabilities`] message says.
pub ghost struct Advertised {
    pub backend: Seq<char>,
    pub algorithm: Seq<char>,
    pub supported_kinds: Seq<JobKind>,
    pub max_nodes: u32,
    pub max_edges: u32,
    pub features: Seq<Seq<char>>,
    pub protocol_version: u32,
    pub stream_width: u32,
    pub native_topology_hash: Option<Seq<u8>>,
    pub encodings: Seq<CoefficientEncoding>,
    pub generators: Seq<GeneratorAlgorithm>,
}

/// What a list of texts says.
pub open spec fn texts(v: Seq<String>) -> Seq<Seq<char>> {
    Seq::new(v.len(), |i: int| v[i]@)
}

/// What a list of solutions says.
pub open spec fn packed_solutions(v: Seq<Solution>) -> Seq<(Seq<u8>, i64)> {
    Seq::new(v.len(), |i: int| (v[i].spins@, v[i].energy_milli))
}

impl View for Capabilities {
    type V = Advertised;

    open spec fn view(&self) -> Advertised {
        Advertised {
            backend: self.backend@,
            algorithm: self.algorithm@,
            supported_kinds: self.supported_kinds@,
            max_nodes: self.max_nodes,
            max_edges: self.max_edges,
            features: texts(self.features@),
            protocol_version: self.protocol_version,
            stream_width: self.stream_width,
            native_topology_hash: match self.native_topology_hash {
                Some(hash) => Some(hash@),
                None => None,
            },
            encodings: self.encodings@,
            generators: self.generators@,
        }
    }
}

impl View for MinerMsg {
    type V = Reply;

    open spec fn view(&self) -> Reply {
        match self {
            MinerMsg::Ready => Reply::Ready,
            MinerMsg::JobRequest(credits) => Reply::Credits(*credits),
            MinerMsg::Result(r) => Reply::Result {
                job_id: r.job_id@,
                salt: r.salt@,
                nonce: r.nonce@,
                solutions: packed_solutions(r.solutions@),
                meta: r.meta,
            },
            MinerMsg::Reject(job_id, reason) => Reply::Reject(job_id@, *reason),
            MinerMsg::Status(s) => Reply::Status {
                miner_id: s.miner_id@,
                utilization: s.utilization,
                jobs_done: s.jobs_done,
                abandoned_generation: s.abandoned_generation,
            },
            MinerMsg::Capabilities(c) => Reply::Capabilities(c@),
            MinerMsg::Fatal(f) => Reply::Fatal {
                exit_code: f.exit_code,
                reason: f.reason@,
                restart_required: f.restart_required,
            },
            MinerMsg::LeaseDone(d) => Reply::LeaseDone {
                job_id: d.job_id@,
                salts_done: d.salts_done,
                best_energy_milli: d.best_energy_milli,
            },
        }
    }
}

/// What a list of messages says.
pub open spec fn replies(v: Seq<MinerMsg>) -> Seq<Reply> {
    Seq::new(v.len(), |i: int| v[i]@)
}

/// How many jobs a list of messages asks for.
pub open spec fn credits_in(v: Seq<Reply>) -> int
    decreases v.len(),
{
    if v.len() == 0 {
        0
    } else {
        credits_in(v.drop_last()) + match v.last() {
            Reply::Credits(credits) => credits as int,
            _ => 0,
        }
    }
}

/// The jobs that two lists ask for together are those of the one and those of
/// the other, and a reply that is no request asks for none.
pub proof fn law_credits_add_up(a: Seq<Reply>, b: Seq<Reply>, reply: Reply)
    ensures
        credits_in(a + b) == credits_in(a) + credits_in(b),
        reply matches Reply::Credits(n) ==> credits_in(seq![reply]) == n,
        !(reply is Credits) ==> credits_in(seq![reply]) == 0,
    decreases b.len(),
{
    reveal_with_fuel(credits_in, 2);
    assert(seq![reply].drop_last() =~= Seq::<Reply>::empty());
    if b.len() == 0 {
        assert(a + b =~= a);
    } else {
        law_credits_add_up(a, b.drop_last(), reply);
        assert((a + b).drop_last() =~= a + b.drop_last());
        assert((a + b).last() == b.last());
    }
}

/// What a list of texts, solutions or messages says has one item for each of
/// them, in order, and each item says what its own one holds.
pub proof fn law_lists_say_every_item(
    words: Seq<String>,
    solutions: Seq<Solution>,
    msgs: Seq<MinerMsg>,
    i: int,
)
    ensures
        texts(words).len() == words.len(),
        0 <= i < words.len() ==> texts(words)[i] == words[i]@,
        packed_solutions(solutions).len() == solutions.len(),
        0 <= i < solutions.len() ==> packed_solutions(solutions)[i].0 == solutions[i].spins@
            && packed_solutions(solutions)[i].1 == solutions[i].energy_milli,
        replies(msgs).len() == msgs.len(),
        0 <= i < msgs.len() ==> replies(msgs)[i] == msgs[i]@,
{
}

} // verus!
