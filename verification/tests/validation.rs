//! Driver-mode input validation, exercised through the public API.
use std::sync::Mutex;

use quip_solver_core::coefficient::Milli;
use quip_solver_core::driver::{solve, to_milli, ProblemJson, SolutionJson, SolveError};
use quip_solver_core::{IsingGraph, SampleError, SampleParams, Sampler, SamplerResult};

/// Records what the last `sample` call was handed.
#[derive(Default)]
struct RecordingSampler {
    seen: Mutex<Option<(SampleParams, Vec<i32>, Vec<i32>)>>,
    max_reads: Option<u32>,
    fails: bool,
}

impl RecordingSampler {
    fn with_max_reads(max_reads: u32) -> Self {
        Self {
            max_reads: Some(max_reads),
            ..Self::default()
        }
    }

    fn seen(&self) -> Option<(SampleParams, Vec<i32>, Vec<i32>)> {
        self.seen
            .lock()
            .unwrap_or_else(std::sync::PoisonError::into_inner)
            .clone()
    }
}

impl Sampler<Milli> for RecordingSampler {
    fn sample(
        &self,
        graph: &IsingGraph<Milli>,
        params: &SampleParams,
    ) -> Result<Vec<SamplerResult>, SampleError> {
        let milli = |values: &[Milli]| values.iter().map(|c| c.0).collect();
        *self
            .seen
            .lock()
            .unwrap_or_else(std::sync::PoisonError::into_inner) =
            Some((*params, milli(&graph.h), milli(&graph.j)));
        if self.fails {
            return Err(SampleError::DeviceBusy);
        }
        Ok(vec![
            SamplerResult {
                spins: vec![1i8; graph.h.len()],
                energy_milli: 0,
            };
            params.num_reads
        ])
    }

    fn max_reads(&self) -> u32 {
        self.max_reads.unwrap_or(u32::MAX)
    }
}

const VALID: &[u8] = br#"{"h":[1.0,-1.0],"j":[1.0],"edges":[[0,1]],
    "num_reads":2,"num_sweeps":8,"sweeps_per_beta":1,"beta_range":null,"seed":7}"#;

fn problem(input: &[u8]) -> ProblemJson {
    let v: serde_json::Value = serde_json::from_slice(input).expect("a JSON document");
    let doubles = |value: &serde_json::Value| -> Vec<u64> {
        value
            .as_array()
            .expect("a list")
            .iter()
            .map(|x| x.as_f64().expect("a number").to_bits())
            .collect()
    };
    let size = |value: &serde_json::Value| value.as_u64().expect("a count") as usize;
    ProblemJson {
        h: doubles(&v["h"]),
        j: doubles(&v["j"]),
        edges: v["edges"]
            .as_array()
            .expect("a list")
            .iter()
            .map(|e| (size(&e[0]), size(&e[1])))
            .collect(),
        num_reads: size(&v["num_reads"]),
        num_sweeps: size(&v["num_sweeps"]),
        sweeps_per_beta: size(&v["sweeps_per_beta"]),
        beta_range: if v["beta_range"].is_null() {
            None
        } else {
            let ends = doubles(&v["beta_range"]);
            Some((ends[0], ends[1]))
        },
        seed: v["seed"].as_u64().expect("a seed"),
    }
}

fn show(bits: u64) -> String {
    f64::from_bits(bits).to_string()
}

fn run(sampler: &RecordingSampler, input: &[u8]) -> Result<Vec<SolutionJson>, SolveError> {
    solve(sampler, problem(input), &show)
}

/// Solve `input`, require that it was rejected as malformed without reaching
/// the sampler, and hand back the detail message.
fn reject_reason(input: &[u8]) -> String {
    let sampler = RecordingSampler::default();
    let outcome = match run(&sampler, input) {
        Ok(_) => "accepted".to_owned(),
        Err(SolveError::Malformed(detail)) => format!("malformed: {detail}"),
        Err(SolveError::Sample(e)) => format!("sample error: {}", e.to_string()),
    };
    assert!(
        outcome.starts_with("malformed: "),
        "expected a malformed rejection, got: {outcome}"
    );
    assert!(
        sampler.seen().is_none(),
        "a rejected problem must never reach the sampler"
    );
    outcome
}

#[test]
fn the_reference_problem_solves() {
    let sampler = RecordingSampler::default();
    let out = run(&sampler, VALID).expect("the reference problem must solve");
    assert!(!out.is_empty());
    assert!(
        sampler.seen().is_some(),
        "the sampler must have been called"
    );
    assert_eq!(out.len(), 2);
    assert_eq!((out[0].spins.as_slice(), out[0].energy_milli), ([1, 1].as_slice(), 0));
}

#[test]
fn couplings_that_do_not_pair_with_edges_are_rejected() {
    let detail = reject_reason(
        br#"{"h":[1.0],"j":[1.0,2.0],"edges":[],
             "num_reads":1,"num_sweeps":1,"sweeps_per_beta":1,"beta_range":null,"seed":1}"#,
    );
    assert!(
        detail.contains("2 couplings") && detail.contains("0 edges"),
        "the error should name both counts: {detail}"
    );
}

#[test]
fn an_edge_endpoint_outside_h_is_rejected() {
    let detail = reject_reason(
        br#"{"h":[1.0,-1.0],"j":[1.0],"edges":[[0,2]],
             "num_reads":1,"num_sweeps":1,"sweeps_per_beta":1,"beta_range":null,"seed":1}"#,
    );
    assert!(
        detail.contains("outside h"),
        "the error should name the bound: {detail}"
    );

    // The last in-range index is still accepted, so the check is not off by one.
    let sampler = RecordingSampler::default();
    assert!(run(
        &sampler,
        br#"{"h":[1.0,-1.0],"j":[1.0],"edges":[[0,1]],
             "num_reads":1,"num_sweeps":1,"sweeps_per_beta":1,"beta_range":null,"seed":1}"#,
    )
    .is_ok());
}

#[test]
fn num_reads_must_be_at_least_one() {
    let detail = reject_reason(
        br#"{"h":[1.0,-1.0],"j":[1.0],"edges":[[0,1]],
             "num_reads":0,"num_sweeps":1,"sweeps_per_beta":1,"beta_range":null,"seed":1}"#,
    );
    assert!(detail.contains("num_reads"), "{detail}");
}

#[test]
fn num_reads_beyond_the_backend_maximum_is_rejected() {
    let sampler = RecordingSampler::with_max_reads(4);
    let err = run(
        &sampler,
        br#"{"h":[1.0,-1.0],"j":[1.0],"edges":[[0,1]],
             "num_reads":5,"num_sweeps":1,"sweeps_per_beta":1,"beta_range":null,"seed":1}"#,
    )
    .expect_err("5 reads against a cap of 4 must be rejected");
    assert!(matches!(err, SolveError::Malformed(_)), "{err:?}");
    assert_eq!(
        err.to_string(),
        "malformed problem JSON: num_reads 5 exceeds this backend's maximum of 4"
    );
    assert!(sampler.seen().is_none());

    // Exactly at the cap still runs.
    let sampler = RecordingSampler::with_max_reads(4);
    assert!(run(
        &sampler,
        br#"{"h":[1.0,-1.0],"j":[1.0],"edges":[[0,1]],
             "num_reads":4,"num_sweeps":1,"sweeps_per_beta":1,"beta_range":null,"seed":1}"#,
    )
    .is_ok());
}

#[test]
fn sweeps_per_beta_must_be_at_least_one() {
    let detail = reject_reason(
        br#"{"h":[1.0,-1.0],"j":[1.0],"edges":[[0,1]],
             "num_reads":1,"num_sweeps":1,"sweeps_per_beta":0,"beta_range":null,"seed":1}"#,
    );
    assert!(detail.contains("sweeps_per_beta"), "{detail}");
}

#[test]
fn beta_range_reaches_the_sampler_unchanged() {
    let sampler = RecordingSampler::default();
    let _ = run(
        &sampler,
        br#"{"h":[1.0,-1.0],"j":[1.0],"edges":[[0,1]],"num_reads":1,"num_sweeps":3,
             "sweeps_per_beta":2,"beta_range":[0.25,9.5],"seed":42}"#,
    )
    .expect("a problem with an explicit beta range must solve");

    let seen = sampler.seen().expect("the sampler must have been called").0;
    assert_eq!(
        seen.beta_range.map(|(hot, cold)| (f64::from_bits(hot), f64::from_bits(cold))),
        Some((0.25, 9.5))
    );
    // The neighbouring knobs travel with it, so a field-order slip is caught.
    assert_eq!(seen.num_reads, 1);
    assert_eq!(seen.num_sweeps, 3);
    assert_eq!(seen.sweeps_per_beta, 2);
    assert_eq!(seen.seed, 42);
}

#[test]
fn a_null_beta_range_reaches_the_sampler_as_none() {
    let sampler = RecordingSampler::default();
    let _ = run(&sampler, VALID).expect("the reference problem must solve");
    assert_eq!(
        sampler.seen().expect("sampler called").0.beta_range,
        None,
        "null must mean auto, not a pinned range"
    );
}

fn text_problem(h: &str, j: &str, edges: &str) -> Vec<u8> {
    format!(
        r#"{{"h":{h},"j":{j},"edges":{edges},"num_reads":1,"num_sweeps":1,
            "sweeps_per_beta":1,"beta_range":null,"seed":0}}"#
    )
    .into_bytes()
}

#[test]
fn coefficients_round_to_the_nearest_milli() {
    let sampler = RecordingSampler::default();
    let _ = run(
        &sampler,
        &text_problem(
            "[0.0004, 0.0005, -0.0005, 0.0015, 1.0, -2147483.648]",
            "[2147483.647]",
            "[[0, 1]]",
        ),
    )
    .expect("every value is inside the i32 milli range");
    let (_, h, j) = sampler.seen().expect("sampler called");
    assert_eq!(
        (h, j),
        (vec![0, 1, -1, 2, 1000, i32::MIN], vec![i32::MAX])
    );
}

#[test]
fn a_coefficient_outside_the_i32_milli_range_is_malformed() {
    for (h, j) in [
        ("[2147483.648, 0]", "[0]"),
        ("[0, 0]", "[-2147483.649]"),
        ("[1e300, 0]", "[0]"),
    ] {
        let sampler = RecordingSampler::default();
        let err = run(&sampler, &text_problem(h, j, "[[0, 1]]"))
            .expect_err("out-of-range coefficient must fail");
        assert!(
            matches!(&err, SolveError::Malformed(why) if why.contains("i32 milli range")),
            "h={h} j={j}: {err:?}"
        );
        assert!(
            sampler.seen().is_none(),
            "h={h} j={j} reached the sampler"
        );
    }
}

#[test]
fn a_coefficient_out_of_range_is_shown_with_its_place() {
    let detail = reject_reason(&text_problem("[0, 0]", "[-2147483.649]", "[[0, 1]]"));
    assert_eq!(
        detail,
        "malformed: j[0] = -2147483.649 is outside the i32 milli range"
    );
}

#[test]
fn a_non_finite_coefficient_is_malformed() {
    // JSON cannot spell these, so call the conversion directly.
    for v in [f64::NAN, f64::INFINITY, f64::NEG_INFINITY] {
        assert!(
            matches!(
                to_milli("h", &[v.to_bits()], &show),
                Err(SolveError::Malformed(_))
            ),
            "{v}"
        );
    }
}

#[test]
fn a_sampler_error_is_a_device_condition() {
    let sampler = RecordingSampler {
        fails: true,
        ..RecordingSampler::default()
    };
    let err = run(&sampler, VALID).expect_err("the sampler failed");
    assert!(matches!(err, SolveError::Sample(SampleError::DeviceBusy)));
    assert_eq!(err.to_string(), "device busy");
}
