//! Adaptive sampling parameters: map a difficulty to a sampling budget.
//!
//! The coordinator advertises the target energy; the miner turns it into a
//! difficulty and computes its own `num_reads` / `num_sweeps` from that.
use crate::binary64::{
    law_rounding_is_to_the_nearest, law_shifts_lose_less_than_a_unit, lemma_round53_is_ordered,
    lemma_round53_shifts, lemma_round53_stays_below, product53, round53, scale, shift_floor, unpack,
    unpacked, Format, ShiftedNumber, Unpacked,
};
use vstd::arithmetic::div_mod::{
    lemma_div_denominator, lemma_div_is_ordered, lemma_div_multiples_vanish,
};
use vstd::arithmetic::power2::{
    lemma2_to64, lemma_pow2_adds, lemma_pow2_pos, lemma_pow2_strictly_increases, pow2,
};
use vstd::prelude::*;

verus! {

/// How hard a target is: a double between zero, the easiest, and one, the
/// hardest.
#[derive(Clone, Copy, Debug, PartialEq, Eq)]
pub struct Difficulty {
    bits: u64,
}

/// The bit pattern of one.
pub const ONE: u64 = 0x3ff0_0000_0000_0000;

impl Difficulty {
    #[verifier::type_invariant]
    spec fn in_range(self) -> bool {
        self.bits <= ONE
    }

    /// The bit pattern of the double.
    pub closed spec fn pattern(self) -> u64 {
        self.bits
    }

    /// The number itself.
    pub open spec fn number(self) -> Unpacked {
        unpacked(self.pattern(), Format::Double)->0
    }

    /// This difficulty times `bound`, rounded to a double and then toward zero.
    pub open spec fn share(self, bound: u32) -> nat {
        shift_floor(product53(self.number(), bound), self.number().exponent as int)
    }

    /// Take a double between zero and one, given by its bit pattern.
    #[must_use]
    pub fn from_bits(bits: u64) -> (difficulty: Option<Self>)
        ensures
            difficulty is Some <==> bits <= ONE,
            difficulty matches Some(d) ==> d.pattern() == bits,
    {
        if bits <= ONE {
            Some(Difficulty { bits })
        } else {
            None
        }
    }

    /// This difficulty times `bound`, rounded toward zero.
    #[must_use]
    pub fn scaled(self, bound: u32) -> (part: u32)
        ensures
            part == self.share(bound),
            part <= bound,
    {
        proof {
            use_type_invariant(self);
            lemma_share_stays_below(self, bound);
        }
        match unpack(self.bits, Format::Double) {
            None => 0,
            Some(number) => {
                let near: ShiftedNumber = scale(number, bound);
                near.floor as u32
            },
        }
    }
}

/// A share of a bound is never more than the bound.
proof fn lemma_share_stays_below(d: Difficulty, bound: u32)
    requires
        d.pattern() <= ONE,
    ensures
        unpacked(d.pattern(), Format::Double) is Some,
        d.share(bound) <= bound,
{
    let bits = d.pattern();
    let size = 0x10_0000_0000_0000u64;
    let field = (bits / size) % 0x800;
    assert(bits / size <= 0x3ff);
    assert(field == bits / size);
    let n = d.number();
    assert(n.exponent < 0);
    let j = (-n.exponent) as nat;
    lemma2_to64();
    lemma_two_to_53();
    if field == 0x3ff {
        assert(bits % size == 0);
        assert(n.mantissa == size);
        assert(j == 52);
        assert(pow2(52) == size);
    } else {
        assert(j >= 53);
        if j > 53 {
            lemma_pow2_strictly_increases(53, j);
        }
    }
    assert(n.mantissa <= pow2(j));
    let p = (n.mantissa * bound) as nat;
    assert(p <= bound * pow2(j)) by (nonlinear_arith)
        requires
            p == n.mantissa * bound,
            n.mantissa <= pow2(j),
    ;
    lemma_round53_stays_below(p, bound as nat, j);
    lemma_pow2_pos(j);
    let r = product53(n, bound);
    lemma_div_is_ordered(r as int, bound * pow2(j), pow2(j) as int);
    lemma_div_multiples_vanish(bound as int, pow2(j) as int);
    assert(pow2(j) * bound == bound * pow2(j)) by (nonlinear_arith);
}

proof fn lemma_two_to_53()
    ensures
        pow2(52) == 0x10_0000_0000_0000,
        pow2(53) == 0x20_0000_0000_0000,
{
    vstd::arithmetic::power2::lemma2_to64_rest();
}

/// Per-backend sampling bounds, interpolated by difficulty.
#[derive(Clone, Copy, Debug, PartialEq, Eq, Structural)]
pub struct AdaptBounds {
    pub min_sweeps: u32,
    pub max_sweeps: u32,
    pub min_reads: u32,
    pub max_reads: u32,
    pub reads_solution_min_factor: u32,
    pub reads_solution_max_factor: u32,
    pub reads_solution_floor_factor: u32,
}

/// Resolved sampling budget for one job.
#[derive(Clone, Copy, Debug, PartialEq, Eq, Structural)]
pub struct AdaptParams {
    pub num_reads: u32,
    pub num_sweeps: u32,
}

pub open spec fn larger(a: int, b: int) -> int {
    if a >= b {
        a
    } else {
        b
    }
}

/// The product, or the largest 32-bit number when it does not fit.
pub open spec fn saturating_product(a: u32, b: u32) -> int {
    if a * b > u32::MAX {
        u32::MAX as int
    } else {
        a * b
    }
}

/// The range of reads: fixed, or widened by the number of solutions wanted
/// when the backend scales with it.
pub open spec fn read_range(min_solutions: u32, bounds: AdaptBounds) -> (int, int) {
    if bounds.reads_solution_min_factor > 0 {
        (
            larger(
                saturating_product(min_solutions, bounds.reads_solution_min_factor),
                bounds.min_reads as int,
            ),
            larger(
                saturating_product(min_solutions, bounds.reads_solution_max_factor),
                bounds.max_reads as int,
            ),
        )
    } else {
        (bounds.min_reads as int, bounds.max_reads as int)
    }
}

/// The budget for `difficulty`.
pub open spec fn budget(
    difficulty: Difficulty,
    min_solutions: u32,
    bounds: AdaptBounds,
) -> AdaptParams {
    let (min_reads, max_reads) = read_range(min_solutions, bounds);
    AdaptParams {
        num_reads: larger(
            larger(min_reads, difficulty.share(max_reads as u32) as int),
            saturating_product(min_solutions, bounds.reads_solution_floor_factor),
        ) as u32,
        num_sweeps: larger(
            bounds.min_sweeps as int,
            difficulty.share(bounds.max_sweeps) as int,
        ) as u32,
    }
}

fn max_u32(a: u32, b: u32) -> (m: u32)
    ensures
        m == larger(a as int, b as int),
{
    if a >= b {
        a
    } else {
        b
    }
}

/// Multiply, stopping at the largest 32-bit number.
pub fn saturating_times(a: u32, b: u32) -> (product: u32)
    ensures
        product == saturating_product(a, b),
{
    proof {
        assert(0 <= a * b <= 0xffff_ffff * 0xffff_ffff) by (nonlinear_arith)
            requires
                a <= 0xffff_ffff,
                b <= 0xffff_ffff,
        ;
    }
    let product: u64 = a as u64 * b as u64;
    if product > u32::MAX as u64 {
        u32::MAX
    } else {
        product as u32
    }
}

/// `count`, or the largest 32-bit number when it is larger.
pub open spec fn capped_count(count: usize) -> u32 {
    if count > u32::MAX {
        u32::MAX
    } else {
        count as u32
    }
}

/// A count in 32 bits.
pub fn cap_count(count: usize) -> (capped: u32)
    ensures
        capped == capped_count(count),
{
    if count as u64 > u32::MAX as u64 {
        u32::MAX
    } else {
        count as u32
    }
}

/// Compute `{num_reads, num_sweeps}` from the difficulty and backend bounds.
#[must_use]
pub fn adapt_params(
    difficulty: Difficulty,
    min_solutions: u32,
    bounds: &AdaptBounds,
) -> (params: AdaptParams)
    ensures
        params == budget(difficulty, min_solutions, *bounds),
{
    let num_sweeps: u32 = max_u32(bounds.min_sweeps, difficulty.scaled(bounds.max_sweeps));
    let (min_reads, max_reads): (u32, u32) = if bounds.reads_solution_min_factor > 0 {
        (
            max_u32(
                saturating_times(min_solutions, bounds.reads_solution_min_factor),
                bounds.min_reads,
            ),
            max_u32(
                saturating_times(min_solutions, bounds.reads_solution_max_factor),
                bounds.max_reads,
            ),
        )
    } else {
        (bounds.min_reads, bounds.max_reads)
    };
    let num_reads: u32 = max_u32(min_reads, difficulty.scaled(max_reads));
    let floor: u32 = saturating_times(min_solutions, bounds.reads_solution_floor_factor);
    AdaptParams { num_reads: max_u32(num_reads, floor), num_sweeps }
}

/// The budget never leaves its bounds, however hard the target.
pub proof fn law_budget_stays_in_bounds(
    difficulty: Difficulty,
    min_solutions: u32,
    bounds: AdaptBounds,
)
    requires
        difficulty.pattern() <= ONE,
    ensures
        ({
            let b = budget(difficulty, min_solutions, bounds);
            let (low, high) = read_range(min_solutions, bounds);
            let floor = saturating_product(min_solutions, bounds.reads_solution_floor_factor);
            &&& bounds.min_sweeps <= b.num_sweeps
            &&& b.num_sweeps <= larger(bounds.min_sweeps as int, bounds.max_sweeps as int)
            &&& larger(low, floor) <= b.num_reads
            &&& b.num_reads <= larger(larger(low, high), floor)
        }),
{
    let (low, high) = read_range(min_solutions, bounds);
    lemma_share_stays_below(difficulty, bounds.max_sweeps);
    lemma_share_stays_below(difficulty, high as u32);
}

/// The easiest target gets the smallest budget, and the hardest one the
/// largest.
pub proof fn law_budget_at_the_ends(difficulty: Difficulty, min_solutions: u32, bounds: AdaptBounds)
    ensures
        ({
            let b = budget(difficulty, min_solutions, bounds);
            let (low, high) = read_range(min_solutions, bounds);
            let floor = saturating_product(min_solutions, bounds.reads_solution_floor_factor);
            &&& difficulty.pattern() == 0 ==> b.num_sweeps == bounds.min_sweeps && b.num_reads
                == larger(low, floor)
            &&& difficulty.pattern() == ONE ==> b.num_sweeps == larger(
                bounds.min_sweeps as int,
                bounds.max_sweeps as int,
            ) && b.num_reads == larger(larger(low, high), floor)
        }),
{
    let (low, high) = read_range(min_solutions, bounds);
    if difficulty.pattern() == 0 {
        lemma_share_of_zero(difficulty, bounds.max_sweeps);
        lemma_share_of_zero(difficulty, high as u32);
    }
    if difficulty.pattern() == ONE {
        lemma_share_of_one(difficulty, bounds.max_sweeps);
        lemma_share_of_one(difficulty, high as u32);
    }
}

/// A harder target never gets a smaller share of a bound.
proof fn lemma_share_is_ordered(a: Difficulty, b: Difficulty, bound: u32)
    requires
        a.pattern() <= b.pattern() <= ONE,
    ensures
        a.share(bound) <= b.share(bound),
{
    lemma_share_stays_below(a, bound);
    lemma_share_stays_below(b, bound);
    let size = 0x10_0000_0000_0000u64;
    let (x, y) = (a.pattern(), b.pattern());
    assert(x / size <= y / size && y / size <= 0x3ff);
    assert((x / size) % 0x800 == x / size && (y / size) % 0x800 == y / size);
    let (m, n) = (a.number(), b.number());
    let p = (m.mantissa * bound) as nat;
    let q = (n.mantissa * bound) as nat;
    let (i, j) = ((-m.exponent) as nat, (-n.exponent) as nat);
    assert(m.exponent < 0 && n.exponent < 0 && m.exponent <= n.exponent);
    let d = (i - j) as nat;
    lemma2_to64();
    lemma_pow2_pos(j);
    lemma_pow2_pos(d);
    assert(m.mantissa <= n.mantissa * pow2(d)) by {
        if d == 0 {
            assert(n.mantissa * pow2(0) == n.mantissa);
        } else {
            assert(n.mantissa >= size && m.mantissa < 2 * size);
            if d > 1 {
                lemma_pow2_strictly_increases(1, d);
            }
            assert(n.mantissa * pow2(d) >= size * 2) by (nonlinear_arith)
                requires
                    n.mantissa >= size,
                    pow2(d) >= 2,
            ;
        }
    }
    assert(p <= q * pow2(d)) by (nonlinear_arith)
        requires
            p == m.mantissa * bound,
            q == n.mantissa * bound,
            m.mantissa <= n.mantissa * pow2(d),
    ;
    lemma_round53_is_ordered(p, q * pow2(d));
    lemma_round53_shifts(q, d);
    let (r, s) = (round53(p), round53(q));
    lemma_pow2_adds(j, d);
    lemma_pow2_pos(i);
    lemma_div_is_ordered(r as int, (s * pow2(d)) as int, pow2(i) as int);
    assert((s * pow2(d)) as int / pow2(i) as int == s as int / pow2(j) as int) by {
        assert(pow2(i) == pow2(d) * pow2(j)) by (nonlinear_arith)
            requires
                pow2(i) == pow2(j) * pow2(d),
        ;
        assert(s * pow2(d) == pow2(d) * s) by (nonlinear_arith);
        lemma_div_denominator((pow2(d) * s) as int, pow2(d) as int, pow2(j) as int);
        lemma_div_multiples_vanish(s as int, pow2(d) as int);
    }
}

/// A harder target never gets fewer reads or sweeps. Between zero and one the
/// order of bit patterns is that of the numbers.
pub proof fn law_a_harder_target_gets_no_less(
    easier: Difficulty,
    harder: Difficulty,
    min_solutions: u32,
    bounds: AdaptBounds,
)
    requires
        easier.pattern() <= harder.pattern() <= ONE,
    ensures
        budget(easier, min_solutions, bounds).num_reads <= budget(
            harder,
            min_solutions,
            bounds,
        ).num_reads,
        budget(easier, min_solutions, bounds).num_sweeps <= budget(
            harder,
            min_solutions,
            bounds,
        ).num_sweeps,
{
    let (low, high) = read_range(min_solutions, bounds);
    lemma_share_stays_below(easier, bounds.max_sweeps);
    lemma_share_stays_below(harder, bounds.max_sweeps);
    lemma_share_stays_below(easier, high as u32);
    lemma_share_stays_below(harder, high as u32);
    lemma_share_is_ordered(easier, harder, bounds.max_sweeps);
    lemma_share_is_ordered(easier, harder, high as u32);
}

/// Wanting more solutions never lowers the reads, and does not touch the sweeps.
pub proof fn law_more_solutions_raise_the_budget(
    difficulty: Difficulty,
    few: u32,
    many: u32,
    bounds: AdaptBounds,
)
    requires
        difficulty.pattern() <= ONE,
        few <= many,
    ensures
        budget(difficulty, few, bounds).num_reads <= budget(difficulty, many, bounds).num_reads,
        budget(difficulty, few, bounds).num_sweeps == budget(difficulty, many, bounds).num_sweeps,
{
    let (_, high) = read_range(few, bounds);
    let (_, higher) = read_range(many, bounds);
    lemma_product_is_ordered(few, many, bounds.reads_solution_min_factor);
    lemma_product_is_ordered(few, many, bounds.reads_solution_max_factor);
    lemma_product_is_ordered(few, many, bounds.reads_solution_floor_factor);
    lemma_share_grows_with_bound(difficulty, high as u32, higher as u32);
    lemma_share_stays_below(difficulty, high as u32);
    lemma_share_stays_below(difficulty, higher as u32);
}

proof fn lemma_product_is_ordered(a: u32, b: u32, factor: u32)
    requires
        a <= b,
    ensures
        0 <= saturating_product(a, factor) <= saturating_product(b, factor) <= u32::MAX,
{
    assert(0 <= a * factor <= b * factor) by (nonlinear_arith)
        requires
            a <= b,
    ;
}

/// A larger bound never gives a smaller share.
proof fn lemma_share_grows_with_bound(d: Difficulty, low: u32, high: u32)
    requires
        d.pattern() <= ONE,
        low <= high,
    ensures
        d.share(low) <= d.share(high),
{
    lemma_share_stays_below(d, high);
    let n = d.number();
    assert(n.mantissa * low <= n.mantissa * high) by (nonlinear_arith)
        requires
            low <= high,
    ;
    lemma_round53_is_ordered((n.mantissa * low) as nat, (n.mantissa * high) as nat);
    let size = 0x10_0000_0000_0000u64;
    let x = d.pattern();
    assert(x / size <= 0x3ff && (x / size) % 0x800 == x / size);
    assert(n.exponent < 0);
    let j = (-n.exponent) as nat;
    lemma_pow2_pos(j);
    lemma_div_is_ordered(product53(n, low) as int, product53(n, high) as int, pow2(j) as int);
}

/// What a difficulty takes of a bound is their product, rounded down to a whole
/// number, but for what a double cannot tell. `k` is how many binary places the
/// difficulty has.
pub proof fn law_a_share_is_the_rounded_product(d: Difficulty, bound: u32, k: nat)
    requires
        d.pattern() <= ONE,
        d.number().exponent == -k,
    ensures
        ({
            let exact = d.number().mantissa * bound;
            let taken = d.share(bound) * pow2(k);
            &&& 0x20_0000_0000_0000 * (taken - exact) <= exact
            &&& 0x20_0000_0000_0000 * (exact - taken) < exact + 0x20_0000_0000_0000 * pow2(k)
        }),
{
    let exact = (d.number().mantissa * bound) as nat;
    let rounded = round53(exact);
    law_rounding_is_to_the_nearest(exact);
    law_shifts_lose_less_than_a_unit(rounded, k);
    let share = d.share(bound);
    assert((share + 1) * pow2(k) == share * pow2(k) + pow2(k)) by (nonlinear_arith);
}

/// The sweeps of a budget are what the difficulty takes of the largest number,
/// and no fewer than the smallest. The reads likewise, of the larger of the
/// largest number and what the wanted solutions allow, and no fewer than the
/// wanted solutions ask for.
pub proof fn law_a_budget_is_a_share_of_the_bounds(
    difficulty: Difficulty,
    min_solutions: u32,
    bounds: AdaptBounds,
)
    requires
        difficulty.pattern() <= ONE,
    ensures
        ({
            let b = budget(difficulty, min_solutions, bounds);
            let share = difficulty.share(bounds.max_sweeps);
            &&& b.num_sweeps >= share && b.num_sweeps >= bounds.min_sweeps
            &&& b.num_sweeps == share || b.num_sweeps == bounds.min_sweeps
            &&& b.num_reads >= difficulty.share(bounds.max_reads)
            &&& b.num_reads >= bounds.min_reads
            &&& bounds.reads_solution_min_factor > 0 && min_solutions
                * bounds.reads_solution_max_factor <= u32::MAX ==> b.num_reads >= difficulty.share(
                (min_solutions * bounds.reads_solution_max_factor) as u32,
            )
        }),
{
    let (_, high) = read_range(min_solutions, bounds);
    law_budget_stays_in_bounds(difficulty, min_solutions, bounds);
    lemma_share_stays_below(difficulty, bounds.max_sweeps);
    lemma_share_stays_below(difficulty, high as u32);
    let most = min_solutions * bounds.reads_solution_max_factor;
    assert(most >= 0) by (nonlinear_arith)
        requires
            most == min_solutions * bounds.reads_solution_max_factor,
    ;
    lemma_share_grows_with_bound(difficulty, bounds.max_reads, high as u32);
    if bounds.reads_solution_min_factor > 0 && most <= u32::MAX {
        lemma_share_grows_with_bound(difficulty, most as u32, high as u32);
    }
}

proof fn lemma_share_of_zero(d: Difficulty, bound: u32)
    requires
        d.pattern() == 0,
    ensures
        d.share(bound) == 0,
{
    lemma_share_stays_below(d, bound);
    let n = d.number();
    let size = Format::Double.fraction();
    assert(size == 0x10_0000_0000_0000);
    assert(0u64 % size == 0 && 0u64 / size == 0);
    assert(0u64 % 0x800 == 0);
    assert(n.mantissa == 0 && n.exponent == -1074);
    assert(product53(n, bound) == 0) by {
        assert((n.mantissa * bound) == 0) by (nonlinear_arith)
            requires
                n.mantissa == 0,
        ;
        lemma_round53_stays_below(0, 0, 0);
    }
    lemma_pow2_pos(1074);
    assert(0int / pow2(1074) as int == 0) by {
        vstd::arithmetic::div_mod::lemma_div_of0(pow2(1074) as int);
    }
}

proof fn lemma_share_of_one(d: Difficulty, bound: u32)
    requires
        d.pattern() == ONE,
    ensures
        d.share(bound) == bound,
{
    lemma_share_stays_below(d, bound);
    let n = d.number();
    let size = Format::Double.fraction();
    assert(size == 0x10_0000_0000_0000);
    assert(ONE % size == 0 && ONE / size == 0x3ff);
    assert(0x3ffu64 % 0x800 == 0x3ff);
    assert(n.mantissa == 0x10_0000_0000_0000 && n.exponent == -52);
    lemma_two_to_53();
    let p = (n.mantissa * bound) as nat;
    crate::binary64::lemma_round53_keeps_multiples(bound as nat, 52);
    assert(p == bound * pow2(52)) by (nonlinear_arith)
        requires
            p == n.mantissa * bound,
            n.mantissa == pow2(52),
    ;
    lemma_div_multiples_vanish(bound as int, pow2(52) as int);
    assert(pow2(52) * bound == bound * pow2(52)) by (nonlinear_arith);
}

} // verus!
