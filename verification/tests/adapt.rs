use quip_solver_core::adapt::{adapt_params, AdaptBounds, AdaptParams, Difficulty};

fn difficulty(value: f64) -> Difficulty {
    Difficulty::from_bits(value.to_bits()).expect("a difficulty lies between zero and one")
}

const CPU_SA: AdaptBounds = AdaptBounds {
    min_sweeps: 64,
    max_sweeps: 4096,
    min_reads: 64,
    max_reads: 512,
    reads_solution_min_factor: 4,
    reads_solution_max_factor: 8,
    reads_solution_floor_factor: 0,
};

#[test]
fn adapt_params_fixed_reads_bounds_when_no_solution_factor() {
    // CUDA-style bounds: no solution factor -> fixed reads bounds.
    let cuda = AdaptBounds {
        min_sweeps: 256,
        max_sweeps: 2048,
        min_reads: 64,
        max_reads: 256,
        reads_solution_min_factor: 0,
        reads_solution_max_factor: 0,
        reads_solution_floor_factor: 0,
    };
    // Easiest target -> difficulty 0 -> floors: sweeps=256, reads=64.
    let p = adapt_params(difficulty(0.0), 5, &cuda);
    assert_eq!(p.num_sweeps, 256);
    assert_eq!(p.num_reads, 64);
}

#[test]
fn the_hardest_target_gets_the_whole_range() {
    let p = adapt_params(difficulty(1.0), 100, &CPU_SA);
    assert_eq!(p, AdaptParams { num_reads: 800, num_sweeps: 4096 });
}

#[test]
fn a_half_difficulty_takes_half_of_each_bound() {
    let p = adapt_params(difficulty(0.5), 1, &CPU_SA);
    assert_eq!(p, AdaptParams { num_reads: 256, num_sweeps: 2048 });
}

#[test]
fn the_floor_factor_wins_over_a_small_share() {
    let bounds = AdaptBounds { reads_solution_floor_factor: 100, ..CPU_SA };
    assert_eq!(adapt_params(difficulty(0.0), 7, &bounds).num_reads, 700);
}

#[test]
fn solution_factors_stop_at_the_largest_number() {
    let bounds = AdaptBounds { reads_solution_min_factor: 4, ..CPU_SA };
    assert_eq!(adapt_params(difficulty(0.0), u32::MAX, &bounds).num_reads, u32::MAX);
}

#[test]
fn shares_are_those_of_double_arithmetic() {
    for d in [0.0, 1.0, 0.5, 0.1, 0.3, 0.7, 0.9999999, 1e-9, 1e-300, 5e-324, 0.333_333_333_333_333_3] {
        for bound in [0, 1, 2, 3, 7, 10, 64, 1000, 4095, 4096, 65_537, u32::MAX - 1, u32::MAX] {
            let want = (d * f64::from(bound)) as u32;
            assert_eq!(difficulty(d).scaled(bound), want, "{d} of {bound}");
        }
    }
}

#[test]
fn only_doubles_between_zero_and_one_are_difficulties() {
    for bad in [-1.0, -0.0, 1.0000000000000002, 2.0, f64::INFINITY, f64::NAN] {
        assert!(Difficulty::from_bits(bad.to_bits()).is_none(), "{bad}");
    }
    assert!(Difficulty::from_bits(1.0_f64.to_bits()).is_some());
}

#[test]
fn a_harder_target_never_gets_less() {
    let mut before = adapt_params(difficulty(0.0), 3, &CPU_SA);
    for step in 1..=1000 {
        let now = adapt_params(difficulty(f64::from(step) / 1000.0), 3, &CPU_SA);
        assert!(now.num_reads >= before.num_reads && now.num_sweeps >= before.num_sweeps);
        before = now;
    }
    assert_eq!(before, AdaptParams { num_reads: 512, num_sweeps: 4096 });
}
