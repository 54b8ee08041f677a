//! Driver mode: solve one problem and exit.
//!
//! A one-shot caller hands a problem in and reads solutions out. There is no
//! session, no coordinator, and no credits.
use crate::binary64::{scale, unpack, unpacked, Format, ShiftedNumber};
use crate::coefficient::{nearest_product, Fixed, Milli};
use crate::error::SampleError;
use crate::ising::{shape_ok, IsingGraph, SampleParams, SamplerResult};
use crate::job::{count_text, endpoint_text, first_stray, validate_shape};
use crate::sampler::Sampler;
use crate::text::{decimal, push_decimal};
use vstd::prelude::*;
use vstd::string::*;

verus! {

/// One problem, as read from stdin. Coefficients and the beta range are the bit
/// patterns of doubles.
#[derive(Debug)]
pub struct ProblemJson {
    /// Linear biases, one per variable.
    pub h: Vec<u64>,
    /// Couplings aligned with `edges`.
    pub j: Vec<u64>,
    /// Undirected edge list.
    pub edges: Vec<(usize, usize)>,
    /// Independent reads to produce.
    pub num_reads: usize,
    /// Annealing sweeps per read.
    pub num_sweeps: usize,
    /// Sweeps spent at each beta rung.
    pub sweeps_per_beta: usize,
    /// Optional explicit `(hot_beta, cold_beta)`.
    pub beta_range: Option<(u64, u64)>,
    /// PRNG seed.
    pub seed: u64,
}

/// One completed read, as written to stdout.
#[derive(Debug)]
pub struct SolutionJson {
    /// Spin configuration, values in `{-1, +1}`.
    pub spins: Vec<i8>,
    /// Consensus energy in milli units.
    pub energy_milli: i64,
}

/// Why [`solve`] could not produce solutions.
#[derive(Debug)]
pub enum SolveError {
    /// The input does not describe a problem. A caller error, not a device
    /// condition: retrying the same input fails again.
    Malformed(String),
    /// The sampler could not complete the job.
    Sample(SampleError),
}

impl SolveError {
    /// What an operator reads.
    pub open spec fn text(self) -> Seq<char> {
        match self {
            SolveError::Malformed(detail) => "malformed problem JSON: "@ + detail@,
            SolveError::Sample(e) => e.text(),
        }
    }

    /// What an operator reads.
    #[must_use]
    pub fn to_string(&self) -> (text: String)
        ensures
            text@ == self.text(),
    {
        match self {
            SolveError::Malformed(detail) => {
                let mut text: String = "malformed problem JSON: ".to_owned();
                text.append(detail.as_str());
                text
            },
            SolveError::Sample(e) => e.to_string(),
        }
    }
}

impl From<SampleError> for SolveError {
    fn from(e: SampleError) -> (error: Self) {
        SolveError::Sample(e)
    }
}

impl vstd::std_specs::convert::FromSpecImpl<SampleError> for SolveError {
    open spec fn obeys_from_spec() -> bool {
        true
    }

    open spec fn from_spec(e: SampleError) -> Self {
        SolveError::Sample(e)
    }
}

/// A double in thousandths, rounded to the nearest one and away from zero in a
/// tie, when that fits in 32 bits.
pub open spec fn rounded_thousandths(bits: u64) -> Option<i32> {
    match unpacked(bits, Format::Double) {
        None => None,
        Some(n) => if i32::MIN <= nearest_product(n, 1000) <= i32::MAX {
            Some(nearest_product(n, 1000) as i32)
        } else {
            None
        },
    }
}

/// Every value has thousandths in range.
pub open spec fn all_in_range(values: Seq<u64>) -> bool {
    forall|i: int| 0 <= i < values.len() ==> rounded_thousandths(#[trigger] values[i]) is Some
}

/// The thousandths of every value.
pub open spec fn thousandths(values: Seq<u64>) -> Seq<i32> {
    Seq::new(values.len(), |i: int| rounded_thousandths(values[i])->0)
}

/// `i` is the first value without thousandths in range.
pub open spec fn first_out_of_range(values: Seq<u64>, i: int) -> bool {
    &&& 0 <= i < values.len()
    &&& rounded_thousandths(values[i]) is None
    &&& forall|k: int| 0 <= k < i ==> rounded_thousandths(#[trigger] values[k]) is Some
}

/// What is said of a value out of range, `shown` being the value in text.
pub open spec fn range_text(name: Seq<char>, i: nat, shown: Seq<char>) -> Seq<char> {
    name + "["@ + decimal(i) + "] = "@ + shown + " is outside the i32 milli range"@
}

fn one_milli(bits: u64) -> (milli: Option<i32>)
    ensures
        milli == rounded_thousandths(bits),
{
    match unpack(bits, Format::Double) {
        None => None,
        Some(n) => {
            let near: ShiftedNumber = scale(n, 1000);
            if n.negative {
                if near.nearest > 0x8000_0000 {
                    None
                } else {
                    let magnitude: i64 = near.nearest as i64;
                    Some((-magnitude) as i32)
                }
            } else {
                if near.nearest > 0x7fff_ffff {
                    None
                } else {
                    Some(near.nearest as i32)
                }
            }
        },
    }
}

/// Convert coefficients to the milli integers that a graph holds.
///
/// Rounds to the nearest milli, ties away from zero. `name` labels the field in
/// the error, and `show` renders a value there.
pub fn to_milli<F: Fn(u64) -> String>(name: &str, values: &[u64], show: &F) -> (milli: Result<
    Vec<i32>,
    SolveError,
>)
    requires
        forall|bits: u64| call_requires(*show, (bits,)),
    ensures
        match milli {
            Ok(v) => all_in_range(values@) && v@ == thousandths(values@),
            Err(e) => exists|i: int, shown: String|
                #![trigger values@[i], shown@]
                {
                    &&& first_out_of_range(values@, i)
                    &&& call_ensures(*show, (values@[i],), shown)
                    &&& e matches SolveError::Malformed(text)
                    &&& text@ == range_text(name@, i as nat, shown@)
                },
        },
{
    let mut out: Vec<i32> = Vec::new();
    let mut i: usize = 0;
    while i < values.len()
        invariant
            forall|bits: u64| call_requires(*show, (bits,)),
            i <= values@.len(),
            out@.len() == i,
            forall|k: int|
                0 <= k < i ==> rounded_thousandths(#[trigger] values@[k]) == Some(out@[k]),
        decreases values@.len() - i,
    {
        match one_milli(values[i]) {
            Some(m) => {
                out.push(m);
            },
            None => {
                let shown: String = show(values[i]);
                let mut text: String = name.to_owned();
                text.append("[");
                push_decimal(&mut text, i as u64);
                text.append("] = ");
                text.append(shown.as_str());
                text.append(" is outside the i32 milli range");
                proof {
                    assert(first_out_of_range(values@, i as int));
                    assert(call_ensures(*show, (values@[i as int],), shown));
                    assert(text@ == range_text(name@, i as nat, shown@));
                }
                return Err(SolveError::Malformed(text));
            },
        }
        i += 1;
    }
    assert(out@ =~= thousandths(values@));
    Ok(out)
}

fn wrap_milli(values: Vec<i32>) -> (wrapped: Vec<Milli>)
    ensures
        wrapped@.len() == values@.len(),
        forall|i: int| 0 <= i < values@.len() ==> (#[trigger] wrapped@[i]).0 == values@[i],
{
    let mut wrapped: Vec<Milli> = Vec::new();
    let mut i: usize = 0;
    while i < values.len()
        invariant
            i <= values@.len(),
            wrapped@.len() == i,
            forall|k: int| 0 <= k < i ==> (#[trigger] wrapped@[k]).0 == values@[k],
        decreases values@.len() - i,
    {
        wrapped.push(Fixed(values[i]));
        i += 1;
    }
    wrapped
}

/// `graph` and `params` are what `problem` asks to sample.
pub open spec fn asks_for(
    problem: ProblemJson,
    graph: IsingGraph<Milli>,
    params: SampleParams,
) -> bool {
    &&& graph.h@.len() == problem.h@.len()
    &&& graph.j@.len() == problem.j@.len()
    &&& forall|i: int|
        0 <= i < problem.h@.len() ==> (#[trigger] graph.h@[i]).0 == thousandths(problem.h@)[i]
    &&& forall|i: int|
        0 <= i < problem.j@.len() ==> (#[trigger] graph.j@[i]).0 == thousandths(problem.j@)[i]
    &&& graph.edges@ == problem.edges@
    &&& params == (SampleParams {
        num_reads: problem.num_reads,
        num_sweeps: problem.num_sweeps,
        sweeps_per_beta: problem.sweeps_per_beta,
        beta_range: problem.beta_range,
        seed: problem.seed,
    })
}

/// The problem can be sampled by a backend that accepts `max_reads` reads.
pub open spec fn solvable(problem: ProblemJson, max_reads: u32) -> bool {
    &&& shape_ok(problem.h@.len(), problem.j@.len(), problem.edges@)
    &&& all_in_range(problem.h@)
    &&& all_in_range(problem.j@)
    &&& 1 <= problem.num_reads <= max_reads
    &&& problem.sweeps_per_beta >= 1
}

/// What is said of a problem that cannot be sampled: its shape first, then its
/// biases, its couplings, its reads and its sweeps.
pub open spec fn fault_text<F: Fn(u64) -> String>(
    problem: ProblemJson,
    max_reads: u32,
    show: F,
    text: Seq<char>,
) -> bool {
    if problem.j@.len() != problem.edges@.len() {
        text == count_text(problem.j@.len(), problem.edges@.len())
    } else if !shape_ok(problem.h@.len(), problem.j@.len(), problem.edges@) {
        exists|k: int|
            first_stray(problem.edges@, problem.h@.len(), k) && text == endpoint_text(
                #[trigger] problem.edges@[k],
                problem.h@.len(),
            )
    } else if !all_in_range(problem.h@) {
        exists|i: int, shown: String|
            #![trigger problem.h@[i], shown@]
            first_out_of_range(problem.h@, i) && call_ensures(show, (problem.h@[i],), shown)
                && text == range_text("h"@, i as nat, shown@)
    } else if !all_in_range(problem.j@) {
        exists|i: int, shown: String|
            #![trigger problem.j@[i], shown@]
            first_out_of_range(problem.j@, i) && call_ensures(show, (problem.j@[i],), shown)
                && text == range_text("j"@, i as nat, shown@)
    } else if problem.num_reads == 0 {
        text == "num_reads must be at least 1"@
    } else if problem.num_reads > max_reads {
        text == "num_reads "@ + decimal(problem.num_reads as nat)
            + " exceeds this backend's maximum of "@ + decimal(max_reads as nat)
    } else {
        text == "sweeps_per_beta must be at least 1"@
    }
}

/// Check one problem against a backend that accepts `max_reads` reads, and
/// build what it asks to sample.
pub fn check_problem<F: Fn(u64) -> String>(problem: ProblemJson, max_reads: u32, show: &F) -> (
checked: Result<(IsingGraph<Milli>, SampleParams), SolveError>)
    requires
        forall|bits: u64| call_requires(*show, (bits,)),
    ensures
        match checked {
            Ok((graph, params)) => solvable(problem, max_reads) && asks_for(problem, graph, params),
            Err(e) => {
                &&& !solvable(problem, max_reads)
                &&& e matches SolveError::Malformed(text)
                &&& fault_text(problem, max_reads, *show, text@)
            },
        },
{
    match validate_shape(problem.h.len(), problem.j.len(), problem.edges.as_slice()) {
        Err(text) => {
            return Err(SolveError::Malformed(text));
        },
        Ok(()) => {},
    }
    let h: Vec<i32> = match to_milli("h", problem.h.as_slice(), show) {
        Err(e) => {
            return Err(e);
        },
        Ok(values) => values,
    };
    let j: Vec<i32> = match to_milli("j", problem.j.as_slice(), show) {
        Err(e) => {
            return Err(e);
        },
        Ok(values) => values,
    };
    if problem.num_reads == 0 {
        return Err(SolveError::Malformed("num_reads must be at least 1".to_owned()));
    }
    if problem.num_reads as u64 > max_reads as u64 {
        let mut text: String = "num_reads ".to_owned();
        push_decimal(&mut text, problem.num_reads as u64);
        text.append(" exceeds this backend's maximum of ");
        push_decimal(&mut text, max_reads as u64);
        return Err(SolveError::Malformed(text));
    }
    if problem.sweeps_per_beta == 0 {
        return Err(SolveError::Malformed("sweeps_per_beta must be at least 1".to_owned()));
    }
    let params: SampleParams = SampleParams {
        num_reads: problem.num_reads,
        num_sweeps: problem.num_sweeps,
        sweeps_per_beta: problem.sweeps_per_beta,
        beta_range: problem.beta_range,
        seed: problem.seed,
    };
    let graph: IsingGraph<Milli> = IsingGraph::new(wrap_milli(h), wrap_milli(j), problem.edges);
    Ok((graph, params))
}

/// `out` are `reads`, in order.
pub open spec fn are_solutions(out: Seq<SolutionJson>, reads: Seq<SamplerResult>) -> bool {
    &&& out.len() == reads.len()
    &&& forall|i: int|
        0 <= i < out.len() ==> (#[trigger] out[i]).spins@ == reads[i].spins@
            && out[i].energy_milli == reads[i].energy_milli
}

fn to_solutions(reads: &[SamplerResult]) -> (out: Vec<SolutionJson>)
    ensures
        are_solutions(out@, reads@),
{
    let mut out: Vec<SolutionJson> = Vec::new();
    let mut i: usize = 0;
    while i < reads.len()
        invariant
            i <= reads@.len(),
            out@.len() == i,
            forall|k: int|
                0 <= k < i ==> (#[trigger] out@[k]).spins@ == reads@[k].spins@
                    && out@[k].energy_milli == reads@[k].energy_milli,
        decreases reads@.len() - i,
    {
        out.push(
            SolutionJson {
                spins: crate::job::copy_spins(reads[i].spins.as_slice()),
                energy_milli: reads[i].energy_milli,
            },
        );
        i += 1;
    }
    out
}

/// What a sampler's answer becomes.
pub fn solutions(sampled: Result<Vec<SamplerResult>, SampleError>) -> (out: Result<
    Vec<SolutionJson>,
    SolveError,
>)
    ensures
        match (out, sampled) {
            (Ok(list), Ok(reads)) => are_solutions(list@, reads@),
            (Err(SolveError::Sample(a)), Err(b)) => a == b,
            _ => false,
        },
{
    match sampled {
        Err(e) => Err(SolveError::from(e)),
        Ok(reads) => Ok(to_solutions(reads.as_slice())),
    }
}

/// `out` is what `solve` makes of the sampler's answer `sampled` on `graph` and
/// `params`.
pub open spec fn sampled_as(
    problem: ProblemJson,
    out: Result<Vec<SolutionJson>, SolveError>,
    graph: IsingGraph<Milli>,
    params: SampleParams,
    sampled: Result<Vec<SamplerResult>, SampleError>,
) -> bool {
    &&& asks_for(problem, graph, params)
    &&& match (out, sampled) {
        (Ok(list), Ok(reads)) => are_solutions(list@, reads@),
        (Err(SolveError::Sample(a)), Err(b)) => a == b,
        _ => false,
    }
}

/// Solve one problem.
///
/// # Errors
///
/// Returns [`SolveError::Malformed`] when `problem` does not describe a coherent
/// problem or holds a coefficient outside the `i32` milli range, and
/// [`SolveError::Sample`] when the sampler cannot complete the job. Only the
/// latter is a device condition. `show` renders a coefficient in an error.
pub fn solve<S: Sampler<Milli>, F: Fn(u64) -> String>(
    sampler: &S,
    problem: ProblemJson,
    show: &F,
) -> (out: Result<Vec<SolutionJson>, SolveError>)
    requires
        forall|bits: u64| call_requires(*show, (bits,)),
    ensures
        exists|max_reads: u32| #[trigger]
            call_ensures(S::max_reads, (sampler,), max_reads) && if solvable(problem, max_reads) {
                exists|
                    graph: IsingGraph<Milli>,
                    params: SampleParams,
                    sampled: Result<Vec<SamplerResult>, SampleError>,
                |
                    #[trigger] sampled_as(problem, out, graph, params, sampled) && call_ensures(
                        S::sample,
                        (sampler, &graph, &params),
                        sampled,
                    )
            } else {
                out matches Err(SolveError::Malformed(text)) && fault_text(
                    problem,
                    max_reads,
                    *show,
                    text@,
                )
            },
{
    let max_reads: u32 = sampler.max_reads();
    assert(call_ensures(S::max_reads, (sampler,), max_reads));
    match check_problem(problem, max_reads, show) {
        Err(e) => Err(e),
        Ok((graph, params)) => {
            let sampled: Result<Vec<SamplerResult>, SampleError> = sampler.sample(&graph, &params);
            let ghost kept = sampled;
            let out: Result<Vec<SolutionJson>, SolveError> = solutions(sampled);
            assert(sampled_as(problem, out, graph, params, kept));
            out
        },
    }
}

/// A problem that reaches a sampler describes a graph, asks for at least one
/// read and no more than the backend accepts, and can divide its sweeps.
pub proof fn law_solvable_problems_are_coherent(
    problem: ProblemJson,
    max_reads: u32,
    graph: IsingGraph<Milli>,
    params: SampleParams,
)
    requires
        solvable(problem, max_reads),
        asks_for(problem, graph, params),
    ensures
        graph.wf(),
        1 <= params.num_reads <= max_reads,
        params.sweeps_per_beta >= 1,
{
}

/// What a sampler gets is the problem as it was given: every bias and every
/// coupling in its own place, each the nearest number of thousandths to its own
/// double, the same edges, and the same numbers.
pub proof fn law_every_coefficient_reaches_the_sampler(
    problem: ProblemJson,
    max_reads: u32,
    graph: IsingGraph<Milli>,
    params: SampleParams,
)
    requires
        solvable(problem, max_reads),
        asks_for(problem, graph, params),
    ensures
        graph.h@.len() == problem.h@.len(),
        graph.j@.len() == problem.j@.len(),
        graph.edges@ == problem.edges@,
        forall|i: int|
            0 <= i < problem.h@.len() ==> unpacked(problem.h@[i], Format::Double) is Some && (
            #[trigger] graph.h@[i]).0 == nearest_product(
                unpacked(problem.h@[i], Format::Double)->0,
                1000,
            ),
        forall|k: int|
            0 <= k < problem.j@.len() ==> unpacked(problem.j@[k], Format::Double) is Some && (
            #[trigger] graph.j@[k]).0 == nearest_product(
                unpacked(problem.j@[k], Format::Double)->0,
                1000,
            ),
        params.num_reads == problem.num_reads,
        params.num_sweeps == problem.num_sweeps,
        params.sweeps_per_beta == problem.sweeps_per_beta,
        params.beta_range == problem.beta_range,
        params.seed == problem.seed,
{
    assert forall|i: int| 0 <= i < problem.h@.len() implies unpacked(
        problem.h@[i],
        Format::Double,
    ) is Some && (#[trigger] graph.h@[i]).0 == nearest_product(
        unpacked(problem.h@[i], Format::Double)->0,
        1000,
    ) by {
        assert(rounded_thousandths(problem.h@[i]) is Some);
    }
    assert forall|k: int| 0 <= k < problem.j@.len() implies unpacked(
        problem.j@[k],
        Format::Double,
    ) is Some && (#[trigger] graph.j@[k]).0 == nearest_product(
        unpacked(problem.j@[k], Format::Double)->0,
        1000,
    ) by {
        assert(rounded_thousandths(problem.j@[k]) is Some);
    }
}

/// What a sampler answers comes out as it is: as many solutions as reads, each
/// with the spins and the energy of its own read, and an error as that error.
pub proof fn law_every_read_comes_out(
    problem: ProblemJson,
    out: Result<Vec<SolutionJson>, SolveError>,
    graph: IsingGraph<Milli>,
    params: SampleParams,
    sampled: Result<Vec<SamplerResult>, SampleError>,
)
    requires
        sampled_as(problem, out, graph, params, sampled),
    ensures
        asks_for(problem, graph, params),
        out is Ok <==> sampled is Ok,
        out is Ok ==> {
            &&& out->Ok_0@.len() == sampled->Ok_0@.len()
            &&& forall|i: int|
                0 <= i < sampled->Ok_0@.len() ==> (#[trigger] out->Ok_0@[i]).spins@
                    == sampled->Ok_0@[i].spins@ && out->Ok_0@[i].energy_milli
                    == sampled->Ok_0@[i].energy_milli
        },
        sampled matches Err(e) ==> out == Err::<Vec<SolutionJson>, SolveError>(
            SolveError::Sample(e),
        ),
{
}

/// A problem is refused for nothing but its shape, a coefficient that is not
/// finite or does not fit in 32 bits of thousandths, its number of reads, or
/// sweeps that cannot be divided by.
pub proof fn law_a_coherent_problem_is_solvable(problem: ProblemJson, max_reads: u32)
    requires
        problem.j@.len() == problem.edges@.len(),
        forall|k: int|
            0 <= k < problem.edges@.len() ==> (#[trigger] problem.edges@[k]).0 < problem.h@.len()
                && problem.edges@[k].1 < problem.h@.len(),
        forall|i: int|
            0 <= i < problem.h@.len() ==> unpacked(#[trigger] problem.h@[i], Format::Double)
                is Some && i32::MIN <= nearest_product(
                unpacked(problem.h@[i], Format::Double)->0,
                1000,
            ) <= i32::MAX,
        forall|k: int|
            0 <= k < problem.j@.len() ==> unpacked(#[trigger] problem.j@[k], Format::Double)
                is Some && i32::MIN <= nearest_product(
                unpacked(problem.j@[k], Format::Double)->0,
                1000,
            ) <= i32::MAX,
        1 <= problem.num_reads <= max_reads,
        problem.sweeps_per_beta >= 1,
    ensures
        solvable(problem, max_reads),
{
    assert forall|i: int| 0 <= i < problem.h@.len() implies rounded_thousandths(
        #[trigger] problem.h@[i],
    ) is Some by {
        assert(unpacked(problem.h@[i], Format::Double) is Some);
    }
    assert forall|k: int| 0 <= k < problem.j@.len() implies rounded_thousandths(
        #[trigger] problem.j@[k],
    ) is Some by {
        assert(unpacked(problem.j@[k], Format::Double) is Some);
    }
}

/// A coefficient is told to be out of range when it is an infinity or a NaN, or
/// when its thousandths do not fit in 32 bits, and only the first such one is.
pub proof fn law_the_first_bad_coefficient_is_told(values: Seq<u64>, i: int, k: int)
    requires
        first_out_of_range(values, i),
    ensures
        0 <= i < values.len(),
        unpacked(values[i], Format::Double) matches Some(n) ==> nearest_product(n, 1000) < i32::MIN
            || nearest_product(n, 1000) > i32::MAX,
        0 <= k < i ==> (unpacked(values[k], Format::Double) matches Some(n) && i32::MIN
            <= nearest_product(n, 1000) <= i32::MAX),
        !all_in_range(values),
        first_out_of_range(values, k) ==> k == i,
{
    if 0 <= k < i {
        assert(rounded_thousandths(values[k]) is Some);
    }
    if first_out_of_range(values, k) && i < k {
        assert(rounded_thousandths(values[i]) is Some);
    }
}

} // verus!
