//! Job validation and dispatch: wire fields to a problem to sample, and a
//! finished job to its replies.
use crate::coefficient::Coefficient;
use crate::encoding::{converts, CoefficientEncoding};
use crate::ising::{shape_ok, IsingGraph, SamplerResult, WarmStart};
use crate::message::{EdgeList, IsingProblem, ProblemGraph, RejectReason, SetTarget, Topology};
use crate::text::{contains_text, decimal, law_a_text_holds_its_middle, push_decimal};
use crate::wire::{
    are_spins, clamp_i64, copy_bytes, decode_i32_le, decode_spins_packed, energy, energy_from_milli,
    law_i32_codec_round_trip, law_spins_survive_packing, le_bytes_of, le_values, packed_from, packs,
    same_bytes, unpacked_spins,
};
use std::collections::HashMap;
use vstd::prelude::*;
use vstd::string::*;

verus! {

broadcast use vstd::std_specs::hash::group_hash_axioms;

/// Session-cached topology, used to resolve topology-hash jobs to dense edges.
///
/// Built once from the `Topology` message. `pos` maps each native node id to
/// its dense position, so sparse ids resolve without a per-job remap.
pub struct TopologyCache {
    pub hash: Vec<u8>,
    pub edges: Vec<(u32, u32)>,
    pub pos: HashMap<u32, usize>,
    /// Number of nodes in the message, repeated ids included.
    pub nodes: usize,
    pub allowed_h: Vec<i32>,
    /// `Some(reason)` when the `Topology` message itself did not validate.
    ///
    /// `Topology` arrives outside any job, so there is no message to reject
    /// when the fault is found. The cache remembers it, and every job that
    /// names this topology is rejected with it.
    pub invalid: Option<RejectReason>,
}

/// The two lists pair up.
pub open spec fn pairs_up(edges: Option<EdgeList>) -> bool {
    match edges {
        None => true,
        Some(e) => e.u@.len() == e.v@.len(),
    }
}

/// The pairs of two lists, as far as both go.
pub open spec fn zipped(edges: Option<EdgeList>) -> Seq<(u32, u32)> {
    match edges {
        None => Seq::empty(),
        Some(e) => Seq::new(
            if e.u@.len() <= e.v@.len() {
                e.u@.len()
            } else {
                e.v@.len()
            },
            |i: int| (e.u@[i], e.v@[i]),
        ),
    }
}

/// `pos` holds the last position of every node id and nothing else.
pub open spec fn positions(pos: Map<u32, usize>, nodes: Seq<u32>) -> bool {
    &&& forall|i: int|
        0 <= i < nodes.len() ==> pos.contains_key(#[trigger] nodes[i]) && i <= pos[nodes[i]]
    &&& forall|id: u32| #[trigger]
        pos.contains_key(id) ==> pos[id] < nodes.len() && nodes[pos[id] as int] == id
}

/// `cache` holds the topology `t`.
pub open spec fn caches(cache: TopologyCache, t: Topology) -> bool {
    &&& cache.hash@ == t.hash@
    &&& cache.allowed_h@ == t.allowed_h_milli@
    &&& cache.edges@ == zipped(t.edges)
    &&& cache.invalid == if t.nodes@.no_duplicates() && pairs_up(t.edges) {
        None::<RejectReason>
    } else {
        Some(RejectReason::Malformed)
    }
    &&& cache.nodes == t.nodes@.len()
    &&& positions(cache.pos@, t.nodes@)
}

impl TopologyCache {
    /// Build from a `Topology` message. Node ids map to their received-order
    /// position, and edges keep received order.
    ///
    /// A repeated node id would renumber every node after it, and two endpoint
    /// lists of unequal length would drop the tail of the longer one. Either
    /// marks the cache invalid.
    pub fn from_topology(t: &Topology) -> (cache: Self)
        ensures
            caches(cache, *t),
    {
        let mut invalid: Option<RejectReason> = None;
        let mut pos: HashMap<u32, usize> = HashMap::new();
        let mut i: usize = 0;
        assert(t.nodes@.take(0).no_duplicates());
        while i < t.nodes.len()
            invariant
                i <= t.nodes@.len(),
                invalid == if t.nodes@.take(i as int).no_duplicates() {
                    None::<RejectReason>
                } else {
                    Some(RejectReason::Malformed)
                },
                positions(pos@, t.nodes@.take(i as int)),
                forall|id: u32| #[trigger]
                    pos@.contains_key(id) <==> t.nodes@.take(i as int).contains(id),
            decreases t.nodes@.len() - i,
        {
            let node: u32 = t.nodes[i];
            let ghost seen = t.nodes@.take(i as int);
            let ghost more = t.nodes@.take(i + 1);
            let ghost before = pos@;
            let repeated: bool = pos.insert(node, i).is_some();
            proof {
                assert(more =~= seen.push(node));
                assert(repeated == seen.contains(node));
                assert forall|id: u32| #[trigger] pos@.contains_key(id) <==> more.contains(id) by {
                    if more.contains(id) {
                        let k = choose|k: int| 0 <= k < more.len() && more[k] == id;
                        if k < i {
                            assert(seen[k] == id);
                        }
                    }
                    if seen.contains(id) {
                        let k = choose|k: int| 0 <= k < seen.len() && seen[k] == id;
                        assert(more[k] == id);
                    }
                    if id == node {
                        assert(more[i as int] == id);
                    }
                }
                lemma_push_keeps_distinct(seen, node);
                assert(pos@ == before.insert(node, i));
                assert forall|k: int| 0 <= k < more.len() implies pos@.contains_key(
                    #[trigger] more[k],
                ) && k <= pos@[more[k]] by {
                    if k < i {
                        assert(more[k] == seen[k]);
                    }
                }
                assert forall|id: u32| #[trigger] pos@.contains_key(id) implies pos@[id]
                    < more.len() && more[pos@[id] as int] == id by {
                    if id != node {
                        assert(before.contains_key(id));
                        assert(seen[before[id] as int] == id);
                    }
                }
            }
            if repeated {
                invalid = Some(RejectReason::Malformed);
            }
            i += 1;
        }
        assert(t.nodes@.take(i as int) =~= t.nodes@);
        let mut edges: Vec<(u32, u32)> = Vec::new();
        match &t.edges {
            None => {},
            Some(e) => {
                if e.u.len() != e.v.len() {
                    invalid = Some(RejectReason::Malformed);
                }
                let count: usize = if e.u.len() <= e.v.len() {
                    e.u.len()
                } else {
                    e.v.len()
                };
                let mut k: usize = 0;
                while k < count
                    invariant
                        k <= count,
                        count <= e.u@.len(),
                        count <= e.v@.len(),
                        edges@.len() == k,
                        forall|m: int|
                            0 <= m < k ==> #[trigger] edges@[m] == (e.u@[m], e.v@[m]),
                    decreases count - k,
                {
                    edges.push((e.u[k], e.v[k]));
                    k += 1;
                }
            },
        }
        assert(edges@ =~= zipped(t.edges));
        TopologyCache {
            hash: copy_bytes(t.hash.as_slice()),
            edges,
            pos,
            nodes: t.nodes.len(),
            allowed_h: copy_values(t.allowed_h_milli.as_slice()),
            invalid,
        }
    }

    /// The biases that the topology allows, in thousandths.
    pub fn allowed_h(&self) -> (values: &[i32])
        ensures
            values@ == self.allowed_h@,
    {
        self.allowed_h.as_slice()
    }

    /// Number of nodes in the cached topology: the length of the message's node
    /// list, also where an id is repeated.
    pub fn num_nodes(&self) -> (nodes: usize)
        ensures
            nodes == self.nodes,
            forall|t: Topology| #[trigger] caches(*self, t) ==> nodes == t.nodes@.len(),
    {
        self.nodes
    }
}

/// In a topology that is valid every node has its own position, the one at which
/// it was received.
pub proof fn law_nodes_keep_their_positions(cache: TopologyCache, t: Topology, i: int)
    requires
        caches(cache, t),
        cache.invalid is None,
        0 <= i < t.nodes@.len(),
    ensures
        cache.pos@.contains_key(t.nodes@[i]),
        cache.pos@[t.nodes@[i]] == i,
{
    let at = cache.pos@[t.nodes@[i]] as int;
    assert(cache.pos@.contains_key(t.nodes@[i]));
    assert(t.nodes@[at] == t.nodes@[i]);
}

/// Every node that was received has a position, a node that was received more
/// than once its last one, and nothing else has any.
pub proof fn law_a_repeated_node_has_its_last_position(
    cache: TopologyCache,
    t: Topology,
    id: u32,
    i: int,
)
    requires
        caches(cache, t),
    ensures
        cache.pos@.contains_key(id) <==> t.nodes@.contains(id),
        cache.pos@.contains_key(id) ==> cache.pos@[id] < t.nodes@.len()
            && t.nodes@[cache.pos@[id] as int] == id,
        0 <= i < t.nodes@.len() && t.nodes@[i] == id ==> i <= cache.pos@[id],
{
    if t.nodes@.contains(id) {
        let k = choose|k: int| 0 <= k < t.nodes@.len() && t.nodes@[k] == id;
        assert(cache.pos@.contains_key(t.nodes@[k]));
    }
    if 0 <= i < t.nodes@.len() && t.nodes@[i] == id {
        assert(i <= cache.pos@[t.nodes@[i]]);
    }
}

proof fn lemma_push_keeps_distinct(s: Seq<u32>, x: u32)
    ensures
        s.push(x).no_duplicates() <==> s.no_duplicates() && !s.contains(x),
{
    let more = s.push(x);
    if more.no_duplicates() {
        assert forall|a: int, b: int| 0 <= a < s.len() && 0 <= b < s.len() && a != b implies s[a]
            != s[b] by {
            assert(more[a] == s[a] && more[b] == s[b]);
        }
        if s.contains(x) {
            let k = choose|k: int| 0 <= k < s.len() && s[k] == x;
            assert(more[k] == more[s.len() as int]);
        }
    }
    if s.no_duplicates() && !s.contains(x) {
        assert forall|a: int, b: int| 0 <= a < more.len() && 0 <= b < more.len() && a
            != b implies more[a] != more[b] by {
            if a == s.len() {
                assert(s.contains(s[b]));
            } else if b == s.len() {
                assert(s.contains(s[a]));
            }
        }
    }
}

fn copy_values(values: &[i32]) -> (copy: Vec<i32>)
    ensures
        copy@ == values@,
{
    let mut copy: Vec<i32> = Vec::new();
    let mut i: usize = 0;
    while i < values.len()
        invariant
            i <= values@.len(),
            copy@ == values@.take(i as int),
        decreases values@.len() - i,
    {
        copy.push(values[i]);
        assert(copy@ =~= values@.take(i + 1));
        i += 1;
    }
    assert(values@.take(i as int) =~= values@);
    copy
}

/// Session difficulty target from `SetTarget`. The `num_*` fields are optional
/// overrides; `0` means unset.
#[derive(Clone, Copy, Debug, PartialEq, Eq, Structural)]
pub struct SessionTarget {
    pub max_energy_milli: i64,
    pub min_solutions: u32,
    pub min_diversity_milli: u32,
    pub max_proof_solutions: u32,
    pub num_reads: u32,
    pub num_sweeps: u32,
}

impl SessionTarget {
    /// Take the fields of a `SetTarget` message.
    pub fn from_set_target(s: &SetTarget) -> (target: Self)
        ensures
            target == (SessionTarget {
                max_energy_milli: s.max_energy_milli,
                min_solutions: s.min_solutions,
                min_diversity_milli: s.min_diversity_milli,
                max_proof_solutions: s.max_proof_solutions,
                num_reads: s.num_reads,
                num_sweeps: s.num_sweeps,
            }),
    {
        SessionTarget {
            max_energy_milli: s.max_energy_milli,
            min_solutions: s.min_solutions,
            min_diversity_milli: s.min_diversity_milli,
            max_proof_solutions: s.max_proof_solutions,
            num_reads: s.num_reads,
            num_sweeps: s.num_sweeps,
        }
    }
}

/// What [`pick_param`] returns.
pub open spec fn picked(job: u32, target: u32, adapt: Option<u32>, fallback: u32) -> u32 {
    if job != 0 {
        job
    } else if target != 0 {
        target
    } else {
        match adapt {
            Some(value) => value,
            None => fallback,
        }
    }
}

/// Resolve one sampling param: per-job override, else `SetTarget` override,
/// else the adapted value, else the fallback. `0` means "unset".
pub fn pick_param(job: u32, target: u32, adapt: Option<u32>, fallback: u32) -> (value: u32)
    ensures
        value == picked(job, target, adapt, fallback),
{
    if job != 0 {
        job
    } else if target != 0 {
        target
    } else {
        match adapt {
            Some(value) => value,
            None => fallback,
        }
    }
}

/// Every endpoint of the cached edges is a known node.
pub open spec fn endpoints_known(cache: TopologyCache) -> bool {
    forall|i: int|
        0 <= i < cache.edges@.len() ==> cache.pos@.contains_key((#[trigger] cache.edges@[i]).0)
            && cache.pos@.contains_key(cache.edges@[i].1)
}

/// The cached edges over dense positions.
pub open spec fn dense_edges(cache: TopologyCache) -> Seq<(usize, usize)> {
    Seq::new(
        cache.edges@.len(),
        |i: int| (cache.pos@[cache.edges@[i].0], cache.pos@[cache.edges@[i].1]),
    )
}

/// The edges that a problem names, or why it names none.
pub open spec fn resolved(
    graph: Option<ProblemGraph>,
    cache: Option<&TopologyCache>,
) -> Result<Seq<(usize, usize)>, RejectReason> {
    match graph {
        None => Ok(Seq::empty()),
        Some(ProblemGraph::Edges(e)) => if e.u@.len() != e.v@.len() {
            Err(RejectReason::Malformed)
        } else {
            Ok(Seq::new(e.u@.len(), |i: int| (e.u@[i] as usize, e.v@[i] as usize)))
        },
        Some(ProblemGraph::TopologyHash(hash)) => match cache {
            None => Err(RejectReason::TopologyMissing),
            Some(c) => if hash@ != c.hash@ {
                Err(RejectReason::TopologyMismatch)
            } else {
                match c.invalid {
                    Some(reason) => Err(reason),
                    None => if endpoints_known(*c) {
                        Ok(dense_edges(*c))
                    } else {
                        Err(RejectReason::Malformed)
                    },
                }
            },
        },
    }
}

/// Resolve a problem's edges to dense positions.
///
/// A job that names a topology is checked against the cached hash before the
/// cache's own validity: the mismatch is the more precise answer.
pub fn resolve_edges(problem: &IsingProblem, cache: Option<&TopologyCache>) -> (edges: Result<
    Vec<(usize, usize)>,
    RejectReason,
>)
    ensures
        match (edges, resolved(problem.graph, cache)) {
            (Ok(e), Ok(want)) => e@ == want,
            (Err(reason), Err(want)) => reason == want,
            _ => false,
        },
        problem.graph is None ==> (edges matches Ok(list) && list@.len() == 0),
        problem.graph matches Some(ProblemGraph::Edges(e)) ==> match edges {
            Ok(list) => {
                &&& e.u@.len() == e.v@.len()
                &&& list@.len() == e.u@.len()
                &&& forall|k: int|
                    0 <= k < e.u@.len() ==> (#[trigger] list@[k]).0 == e.u@[k] && list@[k].1
                        == e.v@[k]
            },
            Err(reason) => e.u@.len() != e.v@.len() && reason == RejectReason::Malformed,
        },
{
    match &problem.graph {
        None => {
            let none: Vec<(usize, usize)> = Vec::new();
            assert(none@ =~= Seq::empty());
            Ok(none)
        },
        Some(ProblemGraph::Edges(e)) => {
            if e.u.len() != e.v.len() {
                return Err(RejectReason::Malformed);
            }
            let mut out: Vec<(usize, usize)> = Vec::new();
            let mut i: usize = 0;
            while i < e.u.len()
                invariant
                    i <= e.u@.len(),
                    e.u@.len() == e.v@.len(),
                    out@.len() == i,
                    forall|k: int|
                        0 <= k < i ==> #[trigger] out@[k] == (e.u@[k] as usize, e.v@[k] as usize),
                decreases e.u@.len() - i,
            {
                out.push((e.u[i] as usize, e.v[i] as usize));
                i += 1;
            }
            assert(out@ =~= Seq::new(
                e.u@.len(),
                |i: int| (e.u@[i] as usize, e.v@[i] as usize),
            ));
            Ok(out)
        },
        Some(ProblemGraph::TopologyHash(hash)) => {
            let c: &TopologyCache = match cache {
                None => {
                    return Err(RejectReason::TopologyMissing);
                },
                Some(c) => c,
            };
            if !same_bytes(hash.as_slice(), c.hash.as_slice()) {
                return Err(RejectReason::TopologyMismatch);
            }
            match c.invalid {
                Some(reason) => {
                    return Err(reason);
                },
                None => {},
            }
            let mut out: Vec<(usize, usize)> = Vec::new();
            let mut i: usize = 0;
            while i < c.edges.len()
                invariant
                    resolved(problem.graph, cache) == if endpoints_known(*c) {
                        Ok::<Seq<(usize, usize)>, RejectReason>(dense_edges(*c))
                    } else {
                        Err(RejectReason::Malformed)
                    },
                    i <= c.edges@.len(),
                    out@.len() == i,
                    forall|k: int|
                        0 <= k < i ==> c.pos@.contains_key((#[trigger] c.edges@[k]).0)
                            && c.pos@.contains_key(c.edges@[k].1),
                    forall|k: int|
                        0 <= k < i ==> #[trigger] out@[k] == (
                            c.pos@[c.edges@[k].0],
                            c.pos@[c.edges@[k].1],
                        ),
                decreases c.edges@.len() - i,
            {
                let (u, v): (u32, u32) = c.edges[i];
                assert(c.edges@[i as int] == (u, v));
                match (c.pos.get(&u), c.pos.get(&v)) {
                    (Some(pu), Some(pv)) => {
                        out.push((*pu, *pv));
                    },
                    _ => {
                        assert(!endpoints_known(*c)) by {
                            assert(!(c.pos@.contains_key(c.edges@[i as int].0)
                                && c.pos@.contains_key(c.edges@[i as int].1)));
                        }
                        return Err(RejectReason::Malformed);
                    },
                }
                i += 1;
            }
            assert(out@ =~= dense_edges(*c));
            Ok(out)
        },
    }
}

/// What [`validate_shape`] says of an unequal count.
pub open spec fn count_text(couplings: nat, edges: nat) -> Seq<char> {
    "j has "@ + decimal(couplings) + " couplings but the graph has "@ + decimal(edges) + " edges"@
}

/// What [`validate_shape`] says of an edge that leaves the graph.
pub open spec fn endpoint_text(edge: (usize, usize), nodes: nat) -> Seq<char> {
    "edge ("@ + decimal(edge.0 as nat) + ", "@ + decimal(edge.1 as nat)
        + ") references a node outside h (h has "@ + decimal(nodes) + " entries)"@
}

/// `k` is the first edge that leaves a graph of `nodes` nodes.
pub open spec fn first_stray(edges: Seq<(usize, usize)>, nodes: nat, k: int) -> bool {
    &&& 0 <= k < edges.len()
    &&& edges[k].0 >= nodes || edges[k].1 >= nodes
    &&& forall|i: int| 0 <= i < k ==> (#[trigger] edges[i]).0 < nodes && edges[i].1 < nodes
}

/// The shape invariant every Ising problem must satisfy, whichever entry point
/// it arrived by: exactly one coupling per edge, and every edge endpoint inside
/// `h`. The error says which of the two failed.
pub fn validate_shape(h_len: usize, j_len: usize, edges: &[(usize, usize)]) -> (shape: Result<
    (),
    String,
>)
    ensures
        match shape {
            Ok(()) => {
                &&& shape_ok(h_len as nat, j_len as nat, edges@)
                &&& j_len == edges@.len()
                &&& forall|k: int|
                    0 <= k < edges@.len() ==> (#[trigger] edges@[k]).0 < h_len && edges@[k].1
                        < h_len
            },
            Err(text) => {
                &&& !shape_ok(h_len as nat, j_len as nat, edges@)
                &&& j_len != edges@.len() ==> text@ == count_text(j_len as nat, edges@.len())
                &&& j_len == edges@.len() ==> exists|k: int|
                    first_stray(edges@, h_len as nat, k) && text@ == endpoint_text(
                        #[trigger] edges@[k],
                        h_len as nat,
                    )
            },
        },
{
    if j_len != edges.len() {
        let mut text: String = "j has ".to_owned();
        push_decimal(&mut text, j_len as u64);
        text.append(" couplings but the graph has ");
        push_decimal(&mut text, edges.len() as u64);
        text.append(" edges");
        return Err(text);
    }
    let mut i: usize = 0;
    while i < edges.len()
        invariant
            i <= edges@.len(),
            j_len == edges@.len(),
            forall|k: int| 0 <= k < i ==> (#[trigger] edges@[k]).0 < h_len && edges@[k].1 < h_len,
        decreases edges@.len() - i,
    {
        let (u, v): (usize, usize) = edges[i];
        if u >= h_len || v >= h_len {
            let mut text: String = "edge (".to_owned();
            push_decimal(&mut text, u as u64);
            text.append(", ");
            push_decimal(&mut text, v as u64);
            text.append(") references a node outside h (h has ");
            push_decimal(&mut text, h_len as u64);
            text.append(" entries)");
            proof {
                assert(first_stray(edges@, h_len as nat, i as int));
                assert(text@ == endpoint_text(edges@[i as int], h_len as nat));
            }
            return Err(text);
        }
        i += 1;
    }
    Ok(())
}

/// Wire coefficients, kept only for lossy samplers.
#[derive(Debug)]
pub struct ExactEnergy {
    pub h: Vec<i32>,
    pub j: Vec<i32>,
    pub edges: Vec<(usize, usize)>,
}

impl ExactEnergy {
    /// Keep the wire coefficients of one problem.
    pub fn new(h: Vec<i32>, j: Vec<i32>, edges: Vec<(usize, usize)>) -> (exact: Self)
        ensures
            exact.h == h,
            exact.j == j,
            exact.edges == edges,
    {
        ExactEnergy { h, j, edges }
    }

    /// Replace every read's energy by the one that the wire coefficients give.
    pub fn rescore(&self, reads: &mut Vec<SamplerResult>)
        ensures
            final(reads)@.len() == old(reads)@.len(),
            forall|i: int|
                0 <= i < old(reads)@.len() ==> {
                    &&& (#[trigger] final(reads)@[i]).spins@ == old(reads)@[i].spins@
                    &&& final(reads)@[i].energy_milli == clamp_i64(
                        energy(old(reads)@[i].spins@, self.h@, self.j@, self.edges@),
                    )
                },
    {
        let ghost before = reads@;
        let mut i: usize = 0;
        while i < reads.len()
            invariant
                i <= reads@.len(),
                reads@.len() == before.len(),
                forall|k: int|
                    0 <= k < reads@.len() ==> (#[trigger] reads@[k]).spins@ == before[k].spins@,
                forall|k: int|
                    0 <= k < i ==> (#[trigger] reads@[k]).energy_milli == clamp_i64(
                        energy(before[k].spins@, self.h@, self.j@, self.edges@),
                    ),
            decreases reads@.len() - i,
        {
            let energy_milli: i64 = energy_from_milli(
                reads[i].spins.as_slice(),
                self.h.as_slice(),
                self.j.as_slice(),
                self.edges.as_slice(),
            );
            let spins: Vec<i8> = copy_spins(reads[i].spins.as_slice());
            reads.set(i, SamplerResult { spins, energy_milli });
            i += 1;
        }
    }
}

/// Copy one spin configuration.
pub fn copy_spins(spins: &[i8]) -> (copy: Vec<i8>)
    ensures
        copy@ == spins@,
{
    let mut copy: Vec<i8> = Vec::new();
    let mut i: usize = 0;
    while i < spins.len()
        invariant
            i <= spins@.len(),
            copy@ == spins@.take(i as int),
        decreases spins@.len() - i,
    {
        copy.push(spins[i]);
        assert(copy@ =~= spins@.take(i + 1));
        i += 1;
    }
    assert(spins@.take(i as int) =~= spins@);
    copy
}

/// Copy an edge list.
pub fn copy_edges(edges: &[(usize, usize)]) -> (copy: Vec<(usize, usize)>)
    ensures
        copy@ == edges@,
{
    let mut copy: Vec<(usize, usize)> = Vec::new();
    let mut i: usize = 0;
    while i < edges.len()
        invariant
            i <= edges@.len(),
            copy@ == edges@.take(i as int),
        decreases edges@.len() - i,
    {
        copy.push(edges[i]);
        assert(copy@ =~= edges@.take(i + 1));
        i += 1;
    }
    assert(edges@.take(i as int) =~= edges@);
    copy
}

/// A problem in the sampler's representation, and its wire coefficients when
/// that representation can lose information.
#[derive(Debug)]
pub struct ParsedIsing<C> {
    pub graph: IsingGraph<C>,
    pub exact_energy: Option<ExactEnergy>,
}

/// A problem in thousandths, over dense positions.
pub ghost struct MilliProblem {
    pub h: Seq<i32>,
    pub j: Seq<i32>,
    pub edges: Seq<(usize, usize)>,
}

/// The thousandths that `bytes` hold.
pub open spec fn milli_in(bytes: Seq<u8>) -> Seq<i32> {
    le_values(bytes, 4).map_values(|v: int| v as i32)
}

/// A size limit of `0` means no limit.
pub open spec fn over_limit(size: nat, limit: u32) -> bool {
    limit != 0 && size > limit
}

/// The problem that the wire fields describe, or why they are refused. A
/// malformed problem is malformed at any size, so shape is judged before size.
pub open spec fn parsed(
    problem: IsingProblem,
    max_nodes: u32,
    max_edges: u32,
    cache: Option<&TopologyCache>,
) -> Result<MilliProblem, RejectReason> {
    let h = milli_in(problem.h@);
    let j = milli_in(problem.j@);
    if problem.encoding != Some(CoefficientEncoding::I32) || problem.scale != 1000 {
        Err(RejectReason::Malformed)
    } else if problem.h@.len() % 4 != 0 || problem.j@.len() % 4 != 0 {
        Err(RejectReason::Malformed)
    } else {
        match resolved(problem.graph, cache) {
            Err(reason) => Err(reason),
            Ok(edges) => if problem.graph matches Some(ProblemGraph::TopologyHash(_))
                && cache matches Some(c) && h.len() != c.nodes {
                Err(RejectReason::Malformed)
            } else if !shape_ok(h.len(), j.len(), edges) {
                Err(RejectReason::Malformed)
            } else if over_limit(h.len(), max_nodes) || over_limit(edges.len(), max_edges) {
                Err(RejectReason::TooLarge)
            } else {
                Ok(MilliProblem { h, j, edges })
            },
        }
    }
}

/// `parsed_graph` is `problem` in the sampler's representation.
pub open spec fn represents<C: Coefficient>(
    graph: IsingGraph<C>,
    exact: Option<ExactEnergy>,
    problem: MilliProblem,
) -> bool {
    &&& converts(problem.h, graph.h@)
    &&& converts(problem.j, graph.j@)
    &&& graph.edges@ == problem.edges
    &&& exact is None <==> C::EXACT
    &&& exact matches Some(e) ==> e.h@ == problem.h && e.j@ == problem.j && e.edges@
        == problem.edges
}

fn convert_all<C: Coefficient>(values: &[i32]) -> (out: Vec<C>)
    requires
        C::scale() > 0,
    ensures
        converts(values@, out@),
{
    let mut out: Vec<C> = Vec::new();
    let mut i: usize = 0;
    while i < values.len()
        invariant
            C::scale() > 0,
            i <= values@.len(),
            converts(values@.take(i as int), out@),
        decreases values@.len() - i,
    {
        let ghost before = out@;
        out.push(C::from_milli(values[i]));
        proof {
            assert forall|k: int| 0 <= k < i implies (#[trigger] out@[k]) == before[k] by {}
        }
        i += 1;
    }
    assert(values@.take(i as int) =~= values@);
    out
}

/// Validate wire fields and build the base Ising graph, or a reject reason.
pub fn parse_ising<C: Coefficient>(
    problem: &IsingProblem,
    max_nodes: u32,
    max_edges: u32,
    cache: Option<&TopologyCache>,
) -> (outcome: Result<ParsedIsing<C>, RejectReason>)
    requires
        C::scale() > 0,
    ensures
        match (outcome, parsed(*problem, max_nodes, max_edges, cache)) {
            (Ok(p), Ok(want)) => represents(p.graph, p.exact_energy, want),
            (Err(reason), Err(want)) => reason == want,
            _ => false,
        },
        outcome matches Ok(p) ==> (problem.graph matches Some(ProblemGraph::Edges(e)) ==> {
            &&& p.graph.edges@.len() == e.u@.len()
            &&& forall|k: int|
                0 <= k < e.u@.len() ==> (#[trigger] p.graph.edges@[k]).0 == e.u@[k]
                    && p.graph.edges@[k].1 == e.v@[k]
        }),
        outcome matches Ok(p) ==> {
            &&& 4 * p.graph.h@.len() == problem.h@.len()
            &&& 4 * p.graph.j@.len() == problem.j@.len()
            &&& p.graph.wf()
        },
{
    match problem.encoding {
        Some(CoefficientEncoding::I32) => {},
        _ => {
            return Err(RejectReason::Malformed);
        },
    }
    if problem.scale != 1000 {
        return Err(RejectReason::Malformed);
    }
    let h_milli: Vec<i32> = match decode_i32_le(problem.h.as_slice()) {
        None => {
            return Err(RejectReason::Malformed);
        },
        Some(values) => values,
    };
    let j_milli: Vec<i32> = match decode_i32_le(problem.j.as_slice()) {
        None => {
            return Err(RejectReason::Malformed);
        },
        Some(values) => values,
    };
    proof {
        lemma_same_values(h_milli@, problem.h@);
        lemma_same_values(j_milli@, problem.j@);
    }
    let edges: Vec<(usize, usize)> = match resolve_edges(problem, cache) {
        Err(reason) => {
            return Err(reason);
        },
        Ok(edges) => edges,
    };
    let n: usize = h_milli.len();
    // A topology-hash job names the cached graph, so its biases must cover
    // exactly that graph's nodes.
    match (&problem.graph, cache) {
        (Some(ProblemGraph::TopologyHash(_)), Some(c)) => {
            if n != c.num_nodes() {
                return Err(RejectReason::Malformed);
            }
        },
        _ => {},
    }
    match validate_shape(n, j_milli.len(), edges.as_slice()) {
        Err(_) => {
            return Err(RejectReason::Malformed);
        },
        Ok(()) => {},
    }
    let over_nodes: bool = max_nodes != 0 && n > max_nodes as usize;
    let over_edges: bool = max_edges != 0 && edges.len() > max_edges as usize;
    if over_nodes || over_edges {
        return Err(RejectReason::TooLarge);
    }
    let h: Vec<C> = convert_all(h_milli.as_slice());
    let j: Vec<C> = convert_all(j_milli.as_slice());
    let exact_energy: Option<ExactEnergy> = if C::EXACT {
        None
    } else {
        Some(ExactEnergy::new(h_milli, j_milli, copy_edges(edges.as_slice())))
    };
    Ok(ParsedIsing { graph: IsingGraph::new(h, j, edges), exact_energy })
}

pub proof fn lemma_same_values(values: Seq<i32>, bytes: Seq<u8>)
    requires
        values.map_values(|x: i32| x as int) == le_values(bytes, 4),
    ensures
        values == milli_in(bytes),
{
    let wide = values.map_values(|x: i32| x as int);
    assert forall|i: int| 0 <= i < values.len() implies values[i] == milli_in(bytes)[i] by {
        assert(wide[i] == values[i]);
    }
    assert(wide.len() == values.len());
    assert(values =~= milli_in(bytes));
}

/// A problem with its own edges keeps every one of them, in order and with both
/// ends as they came.
pub proof fn law_inline_edges_arrive_unchanged(
    problem: IsingProblem,
    max_nodes: u32,
    max_edges: u32,
    cache: Option<&TopologyCache>,
    list: EdgeList,
    want: MilliProblem,
)
    requires
        problem.graph == Some(ProblemGraph::Edges(list)),
        parsed(problem, max_nodes, max_edges, cache) == Ok::<MilliProblem, RejectReason>(want),
    ensures
        list.u@.len() == list.v@.len(),
        want.edges.len() == list.u@.len(),
        forall|k: int|
            0 <= k < list.u@.len() ==> (#[trigger] want.edges[k]).0 == list.u@[k]
                && want.edges[k].1 == list.v@[k],
{
}

/// A problem that names a topology has the edges of that topology, in order, and
/// each end is the position at which its node was received. Its biases cover the
/// topology's nodes.
pub proof fn law_a_named_topology_gives_its_edges(
    problem: IsingProblem,
    max_nodes: u32,
    max_edges: u32,
    cache: TopologyCache,
    t: Topology,
    hash: Vec<u8>,
    want: MilliProblem,
)
    requires
        caches(cache, t),
        problem.graph == Some(ProblemGraph::TopologyHash(hash)),
        parsed(problem, max_nodes, max_edges, Some(&cache)) == Ok::<MilliProblem, RejectReason>(
            want,
        ),
    ensures
        hash@ == t.hash@,
        t.nodes@.no_duplicates(),
        want.h.len() == t.nodes@.len(),
        t.edges is None ==> want.edges.len() == 0,
        t.edges matches Some(list) ==> {
            &&& list.u@.len() == list.v@.len()
            &&& want.edges.len() == list.u@.len()
            &&& forall|k: int|
                0 <= k < list.u@.len() ==> t.nodes@[(#[trigger] want.edges[k]).0 as int]
                    == list.u@[k] && t.nodes@[want.edges[k].1 as int] == list.v@[k]
        },
{
    assert(endpoints_known(cache));
    assert(want.edges == dense_edges(cache));
    match t.edges {
        Some(list) => {
            assert forall|k: int| 0 <= k < list.u@.len() implies t.nodes@[(
            #[trigger] want.edges[k]).0 as int] == list.u@[k] && t.nodes@[want.edges[k].1 as int]
                == list.v@[k] by {
                assert(cache.edges@[k] == (list.u@[k], list.v@[k]));
                assert(cache.pos@.contains_key(cache.edges@[k].0));
                assert(cache.pos@.contains_key(cache.edges@[k].1));
            }
        },
        None => {},
    }
}

/// A problem whose biases and couplings were encoded from thousandths is parsed
/// to those very thousandths. With one coupling per edge and every end among the
/// nodes it is refused for nothing but its size.
pub proof fn law_encoded_problems_are_parsed_back(
    problem: IsingProblem,
    max_nodes: u32,
    max_edges: u32,
    cache: Option<&TopologyCache>,
    h: Seq<i32>,
    j: Seq<i32>,
    list: EdgeList,
)
    requires
        problem.encoding == Some(CoefficientEncoding::I32),
        problem.scale == 1000,
        problem.h@ == le_bytes_of(h),
        problem.j@ == le_bytes_of(j),
        problem.graph == Some(ProblemGraph::Edges(list)),
        list.u@.len() == j.len(),
        list.v@.len() == j.len(),
        forall|k: int|
            0 <= k < j.len() ==> (#[trigger] list.u@[k]) < h.len() && list.v@[k] < h.len(),
    ensures
        parsed(problem, max_nodes, max_edges, cache) is Ok <==> (max_nodes == 0 || h.len()
            <= max_nodes) && (max_edges == 0 || j.len() <= max_edges),
        parsed(problem, max_nodes, max_edges, cache) matches Err(reason) ==> reason
            == RejectReason::TooLarge,
        parsed(problem, max_nodes, max_edges, cache) matches Ok(want) ==> want.h == h && want.j
            == j,
{
    law_i32_codec_round_trip(h);
    law_i32_codec_round_trip(j);
    lemma_same_values(h, problem.h@);
    lemma_same_values(j, problem.j@);
    let edges = resolved(problem.graph, cache)->Ok_0;
    assert forall|k: int| 0 <= k < edges.len() implies (#[trigger] edges[k]).0 < h.len()
        && edges[k].1 < h.len() by {
        assert(list.u@[k] < h.len());
    }
}

/// A problem that is taken has one coupling per edge and every end of an edge
/// among its nodes. A limit changes nothing of what is taken: it only refuses
/// what is larger, and only once everything else is in order.
pub proof fn law_limits_only_refuse_what_is_larger(
    problem: IsingProblem,
    max_nodes: u32,
    max_edges: u32,
    cache: Option<&TopologyCache>,
)
    ensures
        parsed(problem, max_nodes, max_edges, cache) == match parsed(problem, 0, 0, cache) {
            Ok(want) => if (max_nodes != 0 && want.h.len() > max_nodes) || (max_edges != 0
                && want.edges.len() > max_edges) {
                Err(RejectReason::TooLarge)
            } else {
                Ok(want)
            },
            Err(reason) => Err(reason),
        },
        parsed(problem, 0, 0, cache) matches Ok(want) ==> {
            &&& want.j.len() == want.edges.len()
            &&& forall|k: int|
                0 <= k < want.edges.len() ==> (#[trigger] want.edges[k]).0 < want.h.len()
                    && want.edges[k].1 < want.h.len()
            &&& 4 * want.h.len() == problem.h@.len()
            &&& 4 * want.j.len() == problem.j@.len()
        },
{
}

/// What is cached of a topology is what was received: its hash and its allowed
/// biases, and that it is invalid exactly when a node is repeated or the two
/// lists of ends differ in length.
pub proof fn law_a_cache_keeps_the_topology(cache: TopologyCache, t: Topology)
    requires
        caches(cache, t),
    ensures
        cache.hash@ == t.hash@,
        cache.allowed_h@ == t.allowed_h_milli@,
        cache.nodes == t.nodes@.len(),
        cache.invalid is None <==> t.nodes@.no_duplicates() && (t.edges matches Some(list)
            ==> list.u@.len() == list.v@.len()),
        cache.invalid matches Some(reason) ==> reason == RejectReason::Malformed,
{
}

/// A problem over a valid topology is refused as malformed when an edge of the
/// topology ends outside its nodes, or when its biases are not one for each node.
pub proof fn law_a_problem_must_fit_its_topology(
    problem: IsingProblem,
    max_nodes: u32,
    max_edges: u32,
    cache: TopologyCache,
    t: Topology,
    hash: Vec<u8>,
    list: EdgeList,
    k: int,
)
    requires
        caches(cache, t),
        cache.invalid is None,
        problem.graph == Some(ProblemGraph::TopologyHash(hash)),
        hash@ == t.hash@,
        t.edges == Some(list),
        0 <= k < list.u@.len(),
    ensures
        !t.nodes@.contains(list.u@[k]) || !t.nodes@.contains(list.v@[k]) || problem.h@.len() != 4
            * t.nodes@.len() || problem.j@.len() != 4 * list.u@.len() ==> parsed(
            problem,
            max_nodes,
            max_edges,
            Some(&cache),
        ) == Err::<MilliProblem, RejectReason>(RejectReason::Malformed),
{
    if !t.nodes@.contains(list.u@[k]) || !t.nodes@.contains(list.v@[k]) {
        assert(cache.edges@[k] == (list.u@[k], list.v@[k]));
        if endpoints_known(cache) {
            assert(cache.pos@.contains_key(cache.edges@[k].0));
            assert(cache.pos@.contains_key(cache.edges@[k].1));
            assert(t.nodes@[cache.pos@[list.u@[k]] as int] == list.u@[k]);
            assert(t.nodes@[cache.pos@[list.v@[k]] as int] == list.v@[k]);
        }
    }
}

/// A problem that names a topology is refused for the first of these that holds:
/// nothing was cached, another topology was cached, the cached one did not
/// validate.
pub proof fn law_topology_faults_are_told_apart(
    problem: IsingProblem,
    max_nodes: u32,
    max_edges: u32,
    cache: TopologyCache,
    hash: Vec<u8>,
)
    requires
        problem.encoding == Some(CoefficientEncoding::I32),
        problem.scale == 1000,
        problem.h@.len() % 4 == 0,
        problem.j@.len() % 4 == 0,
        problem.graph == Some(ProblemGraph::TopologyHash(hash)),
    ensures
        parsed(problem, max_nodes, max_edges, None) == Err::<MilliProblem, RejectReason>(
            RejectReason::TopologyMissing,
        ),
        hash@ != cache.hash@ ==> parsed(problem, max_nodes, max_edges, Some(&cache)) == Err::<
            MilliProblem,
            RejectReason,
        >(RejectReason::TopologyMismatch),
        (hash@ == cache.hash@ && cache.invalid is Some) ==> parsed(
            problem,
            max_nodes,
            max_edges,
            Some(&cache),
        ) == Err::<MilliProblem, RejectReason>(cache.invalid->0),
{
}

/// The start point and states of a seeded job.
pub ghost struct SeededStart {
    pub spins: Seq<Seq<i8>>,
    pub start_beta_milli: Option<u32>,
    pub reversal_s_milli: Option<u32>,
    pub reversal_pause_us: Option<u32>,
}

/// `0` means unset.
pub open spec fn set(value: u32) -> Option<u32> {
    if value == 0 {
        None
    } else {
        Some(value)
    }
}

impl View for WarmStart {
    type V = SeededStart;

    open spec fn view(&self) -> SeededStart {
        SeededStart {
            spins: Seq::new(self.spins@.len(), |i: int| self.spins@[i]@),
            start_beta_milli: self.start_beta_milli,
            reversal_s_milli: self.reversal_s_milli,
            reversal_pause_us: self.reversal_pause_us,
        }
    }
}

/// Every state covers exactly `nodes` variables.
pub open spec fn states_ok(states: Seq<Vec<u8>>, nodes: int) -> bool {
    forall|i: int| 0 <= i < states.len() ==> packs((#[trigger] states[i])@, nodes)
}

/// The first `reads` states, unpacked.
pub open spec fn first_states(states: Seq<Vec<u8>>, nodes: int, reads: int) -> Seq<Seq<i8>> {
    Seq::new(
        if states.len() <= reads {
            states.len()
        } else {
            reads as nat
        },
        |i: int| unpacked_spins(states[i]@, nodes),
    )
}

/// The warm start that a problem carries for a sampler that takes one.
pub open spec fn warm_start(problem: IsingProblem, nodes: int, reads: int, decode: bool) -> Result<
    Option<SeededStart>,
    RejectReason,
> {
    let states = problem.initial_spins@;
    if states.len() == 0 {
        Ok(None)
    } else if problem.reversal_s_milli >= 1000 || !states_ok(states, nodes) {
        Err(RejectReason::Malformed)
    } else if !decode || reads <= 0 {
        Ok(None)
    } else {
        Ok(
            Some(
                SeededStart {
                    spins: first_states(states, nodes, reads),
                    start_beta_milli: set(problem.start_beta_milli),
                    reversal_s_milli: set(problem.reversal_s_milli),
                    reversal_pause_us: set(problem.reversal_pause_us),
                },
            ),
        )
    }
}

fn some_if_set(value: u32) -> (kept: Option<u32>)
    ensures
        kept == set(value),
{
    if value == 0 {
        None
    } else {
        Some(value)
    }
}

/// Validate the warm-start fields against a job of `num_nodes` variables, and
/// decode them when `decode` is set.
///
/// Validation runs for every solver, so one malformed job gets the same answer
/// everywhere. The start-point fields mean nothing without a state, so a job
/// with no state yields `None` whatever they hold. The states are cut to
/// `num_reads`: a state past the last read has no read to seed, and a job
/// without reads is a cold one.
pub fn parse_warm_start(
    problem: &IsingProblem,
    num_nodes: usize,
    num_reads: usize,
    decode: bool,
) -> (warm: Result<Option<WarmStart>, RejectReason>)
    ensures
        match (warm, warm_start(*problem, num_nodes as int, num_reads as int, decode)) {
            (Ok(None), Ok(None)) => true,
            (Ok(Some(w)), Ok(Some(want))) => w@ == want,
            (Err(reason), Err(want)) => reason == want,
            _ => false,
        },
        warm matches Ok(Some(w)) ==> w.spins@.len() > 0,
{
    if problem.initial_spins.len() == 0 {
        return Ok(None);
    }
    if problem.reversal_s_milli >= 1000 {
        return Err(RejectReason::Malformed);
    }
    let ghost states = problem.initial_spins@;
    let mut spins: Vec<Vec<i8>> = Vec::new();
    let mut i: usize = 0;
    while i < problem.initial_spins.len()
        invariant
            states == problem.initial_spins@,
            states.len() > 0,
            problem.reversal_s_milli < 1000,
            i <= states.len(),
            forall|k: int| 0 <= k < i ==> packs((#[trigger] states[k])@, num_nodes as int),
            decode ==> spins@.len() == if i <= num_reads {
                i
            } else {
                num_reads
            },
            decode ==> forall|k: int|
                0 <= k < spins@.len() ==> (#[trigger] spins@[k])@ == unpacked_spins(
                    states[k]@,
                    num_nodes as int,
                ),
        decreases states.len() - i,
    {
        match decode_spins_packed(problem.initial_spins[i].as_slice(), num_nodes) {
            None => {
                assert(!packs(states[i as int]@, num_nodes as int));
                return Err(RejectReason::Malformed);
            },
            Some(state) => {
                if decode && spins.len() < num_reads {
                    spins.push(state);
                }
            },
        }
        i += 1;
    }
    if !decode || num_reads == 0 {
        return Ok(None);
    }
    let warm: WarmStart = WarmStart {
        spins,
        start_beta_milli: some_if_set(problem.start_beta_milli),
        reversal_s_milli: some_if_set(problem.reversal_s_milli),
        reversal_pause_us: some_if_set(problem.reversal_pause_us),
    };
    assert(warm@.spins =~= first_states(states, num_nodes as int, num_reads as int));
    Ok(Some(warm))
}

/// Whether start states are refused does not depend on whether the solver uses
/// them, nor on how many reads it makes. One that does not use them sees none,
/// and one that does sees no more of them than it has reads.
pub proof fn law_start_states_are_judged_alike(
    problem: IsingProblem,
    nodes: int,
    reads: int,
    other_reads: int,
)
    requires
        0 <= reads,
    ensures
        warm_start(problem, nodes, reads, true) is Err <==> warm_start(
            problem,
            nodes,
            other_reads,
            false,
        ) is Err,
        warm_start(problem, nodes, reads, false) matches Ok(start) ==> start is None,
        warm_start(problem, nodes, reads, true) matches Ok(Some(start)) ==> start.spins.len()
            <= reads,
{
}

/// A warm start has at least one state, each state has one spin up or down for
/// every variable, and a reversal point lies strictly inside the anneal.
pub proof fn law_start_states_cover_the_job(
    problem: IsingProblem,
    nodes: int,
    reads: int,
    start: SeededStart,
)
    requires
        0 <= nodes,
        warm_start(problem, nodes, reads, true) == Ok::<Option<SeededStart>, RejectReason>(
            Some(start),
        ),
    ensures
        start.spins.len() > 0,
        forall|i: int|
            0 <= i < start.spins.len() ==> (#[trigger] start.spins[i]).len() == nodes && are_spins(
                start.spins[i],
            ),
        start.reversal_s_milli matches Some(s) ==> 0 < s < 1000,
{
}

/// Every read that a warm start seeds starts from the state that was packed for
/// it: the states keep their order, the first ones are taken when there are more
/// than reads, and each start-point field is carried on its own.
pub proof fn law_every_start_state_is_the_one_sent(
    problem: IsingProblem,
    nodes: int,
    reads: int,
    start: SeededStart,
    sent: Seq<Seq<i8>>,
)
    requires
        0 <= reads,
        warm_start(problem, nodes, reads, true) == Ok::<Option<SeededStart>, RejectReason>(
            Some(start),
        ),
        sent.len() == problem.initial_spins@.len(),
        forall|i: int|
            0 <= i < sent.len() ==> (#[trigger] sent[i]).len() == nodes && are_spins(sent[i])
                && packed_from(problem.initial_spins@[i]@, sent[i]),
    ensures
        start.spins.len() == sent.len() || start.spins.len() == reads,
        start.spins.len() <= sent.len(),
        start.spins.len() <= reads,
        forall|i: int| 0 <= i < start.spins.len() ==> #[trigger] start.spins[i] == sent[i],
        problem.start_beta_milli != 0 ==> start.start_beta_milli == Some(problem.start_beta_milli),
        problem.start_beta_milli == 0 ==> start.start_beta_milli is None,
        problem.reversal_s_milli != 0 ==> start.reversal_s_milli == Some(problem.reversal_s_milli),
        problem.reversal_s_milli == 0 ==> start.reversal_s_milli is None,
        problem.reversal_pause_us != 0 ==> start.reversal_pause_us == Some(
            problem.reversal_pause_us,
        ),
        problem.reversal_pause_us == 0 ==> start.reversal_pause_us is None,
{
    assert forall|i: int| 0 <= i < start.spins.len() implies #[trigger] start.spins[i]
        == sent[i] by {
        assert(packed_from(problem.initial_spins@[i]@, sent[i]));
        law_spins_survive_packing(problem.initial_spins@[i]@, sent[i]);
    }
}

/// States that were packed from one spin for each variable are never refused,
/// and start a sampler that uses them, unless the reversal point lies past the
/// anneal or there is no read to seed.
pub proof fn law_packed_start_states_are_taken(
    problem: IsingProblem,
    nodes: int,
    reads: int,
    sent: Seq<Seq<i8>>,
)
    requires
        sent.len() == problem.initial_spins@.len(),
        sent.len() > 0,
        forall|i: int|
            0 <= i < sent.len() ==> (#[trigger] sent[i]).len() == nodes && packed_from(
                problem.initial_spins@[i]@,
                sent[i],
            ),
    ensures
        problem.reversal_s_milli < 1000 && reads > 0 ==> warm_start(problem, nodes, reads, true)
            matches Ok(Some(_)),
        problem.reversal_s_milli >= 1000 ==> warm_start(problem, nodes, reads, true) == Err::<
            Option<SeededStart>,
            RejectReason,
        >(RejectReason::Malformed),
{
    assert forall|i: int| 0 <= i < problem.initial_spins@.len() implies packs(
        (#[trigger] problem.initial_spins@[i])@,
        nodes,
    ) by {
        assert(packed_from(problem.initial_spins@[i]@, sent[i]));
    }
}

/// The top-level keys of a TOML document with the value of each integer, or
/// `None` when the text is not a TOML document.
pub uninterp spec fn toml_top_level(text: Seq<char>) -> Option<Seq<(Seq<char>, Option<i64>)>>;

/// What a list of keys and values says.
pub open spec fn entry_views(entries: Seq<(String, Option<i64>)>) -> Seq<(Seq<char>, Option<i64>)> {
    Seq::new(entries.len(), |i: int| (entries[i].0@, entries[i].1))
}

/// What an optional list of keys and values says.
pub open spec fn table_view(entries: Option<Vec<(String, Option<i64>)>>) -> Option<
    Seq<(Seq<char>, Option<i64>)>,
> {
    match entries {
        None => None,
        Some(list) => Some(entry_views(list@)),
    }
}

/// Parses with `toml::Table`'s `FromStr` and hands out each top-level key with
/// `toml::Value::as_integer` of its value. Claims only that the outcome is
/// determined by the text.
#[verifier::external_body]
fn parse_toml(text: &str) -> (entries: Option<Vec<(String, Option<i64>)>>)
    ensures
        table_view(entries) == toml_top_level(text@),
{
    match text.parse::<toml::Table>() {
        Ok(table) => Some(table.iter().map(|(k, v)| (k.clone(), v.as_integer())).collect()),
        Err(_) => None,
    }
}

/// Sweeps per read when nothing configures them.
pub const DEFAULT_NUM_SWEEPS: usize = 64;

/// The value of the first entry with this key.
pub open spec fn lookup(entries: Seq<(Seq<char>, Option<i64>)>, key: Seq<char>) -> Option<
    Option<i64>,
>
    decreases entries.len(),
{
    if entries.len() == 0 {
        None
    } else if entries[0].0 == key {
        Some(entries[0].1)
    } else {
        lookup(entries.drop_first(), key)
    }
}

/// The sweeps that a configuration asks for: a positive integer under the
/// top-level key `num_sweeps`, and the default otherwise.
pub open spec fn configured_sweeps(entries: Option<Seq<(Seq<char>, Option<i64>)>>) -> usize {
    match entries {
        None => DEFAULT_NUM_SWEEPS,
        Some(list) => match lookup(list, "num_sweeps"@) {
            Some(Some(n)) => if 0 < n <= usize::MAX {
                n as usize
            } else {
                DEFAULT_NUM_SWEEPS
            },
            _ => DEFAULT_NUM_SWEEPS,
        },
    }
}

/// The value of the first entry with this key, if there is one.
fn find_entry(list: &[(String, Option<i64>)], key: &str) -> (found: Option<Option<i64>>)
    ensures
        found == lookup(entry_views(list@), key@),
{
    let ghost all = entry_views(list@);
    let mut i: usize = 0;
    assert(all.skip(0) =~= all);
    while i < list.len()
        invariant
            all == entry_views(list@),
            i <= list@.len(),
            lookup(all, key@) == lookup(all.skip(i as int), key@),
        decreases list@.len() - i,
    {
        let ghost rest = all.skip(i as int);
        assert(rest[0] == all[i as int]);
        assert(rest.drop_first() =~= all.skip(i + 1));
        if crate::text::same_text(list[i].0.as_str(), key) {
            return Some(list[i].1);
        }
        i += 1;
    }
    assert(all.skip(i as int).len() == 0);
    None
}

/// Read the session's `num_sweeps` out of parsed configuration.
pub fn num_sweeps_from_entries(entries: &Option<Vec<(String, Option<i64>)>>) -> (sweeps: usize)
    ensures
        sweeps == configured_sweeps(table_view(*entries)),
{
    match entries {
        None => DEFAULT_NUM_SWEEPS,
        Some(list) => match find_entry(list.as_slice(), "num_sweeps") {
            Some(Some(n)) => if n > 0 && n as u64 <= usize::MAX as u64 {
                n as usize
            } else {
                DEFAULT_NUM_SWEEPS
            },
            _ => DEFAULT_NUM_SWEEPS,
        },
    }
}

/// Why a configuration that was sent does not set the sweeps.
#[derive(Clone, Copy, Debug, PartialEq, Eq, Structural)]
pub enum SweepsComplaint {
    /// The text is not a TOML document.
    Malformed,
    /// The key is there, but its value is not a positive integer.
    Unusable,
}

impl SweepsComplaint {
    /// What an operator reads.
    pub open spec fn text(self) -> Seq<char> {
        match self {
            SweepsComplaint::Malformed =>
                "config: backend_toml does not parse as TOML; using num_sweeps = 64"@,
            SweepsComplaint::Unusable => "config: num_sweeps is not a positive integer; using 64"@,
        }
    }

    /// What an operator reads.
    #[must_use]
    pub fn to_string(&self) -> (text: String)
        ensures
            text@ == self.text(),
    {
        match self {
            SweepsComplaint::Malformed =>
                "config: backend_toml does not parse as TOML; using num_sweeps = 64".to_owned(),
            SweepsComplaint::Unusable =>
                "config: num_sweeps is not a positive integer; using 64".to_owned(),
        }
    }
}

/// What is wrong with the sweeps of a configuration. One that does not mention
/// them is in order.
pub open spec fn complaint(entries: Option<Seq<(Seq<char>, Option<i64>)>>) -> Option<
    SweepsComplaint,
> {
    match entries {
        None => Some(SweepsComplaint::Malformed),
        Some(list) => match lookup(list, "num_sweeps"@) {
            None => None,
            Some(Some(n)) => if 0 < n <= usize::MAX {
                None
            } else {
                Some(SweepsComplaint::Unusable)
            },
            Some(None) => Some(SweepsComplaint::Unusable),
        },
    }
}

/// Say what is wrong with the sweeps of parsed configuration, so that the
/// default never takes the place of a value without a word.
pub fn sweeps_complaint(entries: &Option<Vec<(String, Option<i64>)>>) -> (wrong: Option<
    SweepsComplaint,
>)
    ensures
        wrong == complaint(table_view(*entries)),
{
    match entries {
        None => Some(SweepsComplaint::Malformed),
        Some(list) => match find_entry(list.as_slice(), "num_sweeps") {
            None => None,
            Some(Some(n)) => if n > 0 && n as u64 <= usize::MAX as u64 {
                None
            } else {
                Some(SweepsComplaint::Unusable)
            },
            Some(None) => Some(SweepsComplaint::Unusable),
        },
    }
}

/// The default takes the place of what a configuration says only with a
/// complaint: without one, the sweeps are those that it names, or it names none.
pub proof fn law_no_silent_default(entries: Option<Seq<(Seq<char>, Option<i64>)>>)
    ensures
        complaint(entries) is Some ==> configured_sweeps(entries) == DEFAULT_NUM_SWEEPS,
        complaint(entries) is None ==> entries is Some && match lookup(
            entries->0,
            "num_sweeps"@,
        ) {
            None => configured_sweeps(entries) == DEFAULT_NUM_SWEEPS,
            Some(value) => value matches Some(n) && n > 0 && configured_sweeps(entries) == n,
        },
{
}

proof fn lemma_first_entry(entries: Seq<(Seq<char>, Option<i64>)>, key: Seq<char>, at: int)
    requires
        0 <= at < entries.len(),
        entries[at].0 == key,
        forall|i: int| 0 <= i < at ==> (#[trigger] entries[i]).0 != key,
    ensures
        lookup(entries, key) == Some(entries[at].1),
    decreases at,
{
    if at > 0 {
        assert(entries[0].0 != key);
        let rest = entries.drop_first();
        assert forall|i: int| 0 <= i < at - 1 implies (#[trigger] rest[i]).0 != key by {
            assert(entries[i + 1].0 != key);
        }
        lemma_first_entry(rest, key, at - 1);
    }
}

proof fn lemma_no_entry(entries: Seq<(Seq<char>, Option<i64>)>, key: Seq<char>)
    requires
        forall|i: int| 0 <= i < entries.len() ==> (#[trigger] entries[i]).0 != key,
    ensures
        lookup(entries, key) is None,
    decreases entries.len(),
{
    if entries.len() > 0 {
        let rest = entries.drop_first();
        assert forall|i: int| 0 <= i < rest.len() implies (#[trigger] rest[i]).0 != key by {
            assert(entries[i + 1].0 != key);
        }
        lemma_no_entry(rest, key);
    }
}

/// The sweeps are those under the key `num_sweeps`, wherever it stands: a
/// positive integer there is taken as it is, anything else there is complained
/// of, and without that key neither happens.
pub proof fn law_the_key_sets_the_sweeps(entries: Seq<(Seq<char>, Option<i64>)>, at: int)
    ensures
        0 <= at < entries.len() && entries[at].0 == "num_sweeps"@ && (forall|i: int|
            0 <= i < at ==> (#[trigger] entries[i]).0 != "num_sweeps"@) ==> match entries[at].1 {
            Some(n) => if 0 < n <= usize::MAX {
                configured_sweeps(Some(entries)) == n && complaint(Some(entries)) is None
            } else {
                configured_sweeps(Some(entries)) == 64 && complaint(Some(entries)) == Some(
                    SweepsComplaint::Unusable,
                )
            },
            None => configured_sweeps(Some(entries)) == 64 && complaint(Some(entries)) == Some(
                SweepsComplaint::Unusable,
            ),
        },
        (forall|i: int|
            0 <= i < entries.len() ==> (#[trigger] entries[i]).0 != "num_sweeps"@)
            ==> configured_sweeps(Some(entries)) == 64 && complaint(Some(entries)) is None,
        configured_sweeps(None) == 64,
        complaint(None) == Some(SweepsComplaint::Malformed),
{
    let key = "num_sweeps"@;
    if 0 <= at < entries.len() && entries[at].0 == key && (forall|i: int|
        0 <= i < at ==> (#[trigger] entries[i]).0 != key) {
        lemma_first_entry(entries, key, at);
    }
    if forall|i: int| 0 <= i < entries.len() ==> (#[trigger] entries[i]).0 != key {
        lemma_no_entry(entries, key);
    }
}

/// Say what is wrong with the sweeps of the backend's configuration text.
pub fn sweeps_complaint_of_toml(backend_toml: &str) -> (wrong: Option<SweepsComplaint>)
    ensures
        wrong == complaint(toml_top_level(backend_toml@)),
{
    let entries: Option<Vec<(String, Option<i64>)>> = parse_toml(backend_toml);
    sweeps_complaint(&entries)
}

/// Read the session's `num_sweeps` out of the backend's configuration text.
///
/// Only a top-level key configures the session. A `num_sweeps` under a table
/// belongs to that table's own schema.
pub fn num_sweeps_from_toml(backend_toml: &str) -> (sweeps: usize)
    ensures
        sweeps == configured_sweeps(toml_top_level(backend_toml@)),
{
    let entries: Option<Vec<(String, Option<i64>)>> = parse_toml(backend_toml);
    num_sweeps_from_entries(&entries)
}

/// A complaint about the shape tells the two counts that differ, or the ends of
/// the first edge that leaves the graph and how many nodes there are.
pub proof fn law_shape_complaints_tell_what_is_wrong(
    couplings: nat,
    edges: Seq<(usize, usize)>,
    nodes: nat,
    k: int,
)
    requires
        first_stray(edges, nodes, k),
    ensures
        contains_text(
            count_text(couplings, edges.len()),
            "j has "@ + decimal(couplings) + " couplings"@,
        ),
        contains_text(count_text(couplings, edges.len()), decimal(edges.len()) + " edges"@),
        0 <= k < edges.len(),
        edges[k].0 >= nodes || edges[k].1 >= nodes,
        forall|i: int| 0 <= i < k ==> (#[trigger] edges[i]).0 < nodes && edges[i].1 < nodes,
        contains_text(
            endpoint_text(edges[k], nodes),
            "("@ + decimal(edges[k].0 as nat) + ", "@ + decimal(edges[k].1 as nat) + ")"@,
        ),
        contains_text(endpoint_text(edges[k], nodes), "h has "@ + decimal(nodes) + " entries"@),
{
    let (a, b) = (decimal(couplings), decimal(edges.len()));
    reveal_strlit(" couplings but the graph has ");
    reveal_strlit(" couplings");
    let seam = " couplings but the graph has "@;
    let (front, rest) = (seam.take(10), seam.skip(10));
    assert(front =~= " couplings"@);
    assert(count_text(couplings, edges.len()) =~= Seq::empty() + ("j has "@ + a + front) + (rest + b
        + " edges"@));
    law_a_text_holds_its_middle(
        Seq::empty(),
        "j has "@ + a + front,
        rest + b + " edges"@,
        Seq::empty(),
    );
    assert(count_text(couplings, edges.len()) =~= ("j has "@ + a + seam) + (b + " edges"@)
        + Seq::empty());
    law_a_text_holds_its_middle(
        "j has "@ + a + seam,
        b + " edges"@,
        Seq::empty(),
        Seq::empty(),
    );
    lemma_endpoint_text(edges[k], nodes);
}

proof fn lemma_endpoint_text(edge: (usize, usize), nodes: nat)
    ensures
        contains_text(
            endpoint_text(edge, nodes),
            "("@ + decimal(edge.0 as nat) + ", "@ + decimal(edge.1 as nat) + ")"@,
        ),
        contains_text(endpoint_text(edge, nodes), "h has "@ + decimal(nodes) + " entries"@),
{
    let (u, v, n) = (decimal(edge.0 as nat), decimal(edge.1 as nat), decimal(nodes));
    reveal_strlit("edge (");
    reveal_strlit("(");
    reveal_strlit(")");
    reveal_strlit(") references a node outside h (h has ");
    reveal_strlit("h has ");
    reveal_strlit(" entries)");
    reveal_strlit(" entries");
    let open = "edge ("@;
    let seam = ") references a node outside h (h has "@;
    let close = " entries)"@;
    let text = endpoint_text(edge, nodes);
    let (lead, paren) = (open.take(5), open.skip(5));
    assert(paren =~= "("@);
    assert(seam.take(1) =~= ")"@);
    assert(seam.skip(31) =~= "h has "@);
    assert(close.take(8) =~= " entries"@);
    let m = paren + u + ", "@ + v + seam.take(1);
    let behind = seam.skip(1) + n + close;
    assert(text =~= lead + m + behind);
    law_a_text_holds_its_middle(lead, m, behind, text);
    let before = open + u + ", "@ + v + seam.take(31);
    let m = seam.skip(31) + n + close.take(8);
    assert(text =~= before + m + close.skip(8));
    law_a_text_holds_its_middle(before, m, close.skip(8), text);
}

/// What a list of configured keys and a warm start say has one item for each of
/// theirs, in order, and each item says what its own one holds.
pub proof fn law_entries_and_states_say_every_item(
    entries: Seq<(String, Option<i64>)>,
    warm: WarmStart,
    i: int,
)
    ensures
        entry_views(entries).len() == entries.len(),
        0 <= i < entries.len() ==> entry_views(entries)[i].0 == entries[i].0@ && entry_views(
            entries,
        )[i].1 == entries[i].1,
        warm@.spins.len() == warm.spins@.len(),
        0 <= i < warm.spins@.len() ==> warm@.spins[i] == warm.spins@[i]@,
        warm@.start_beta_milli == warm.start_beta_milli,
        warm@.reversal_s_milli == warm.reversal_s_milli,
        warm@.reversal_pause_us == warm.reversal_pause_us,
{
}

} // verus!
