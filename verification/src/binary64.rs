//! Exact integer arithmetic on the bit patterns of binary floating-point
//! numbers: what a double times a whole number is once it is rounded to a
//! double again, and the whole numbers near that product.
use vstd::arithmetic::div_mod::{
    lemma_div_denominator, lemma_fundamental_div_mod, lemma_mod_multiples_basic,
};
use vstd::arithmetic::power2::{
    lemma2_to64, lemma2_to64_rest, lemma_pow2_adds, lemma_pow2_pos, lemma_pow2_strictly_increases,
    lemma_pow2_unfold, pow2,
};
use vstd::prelude::*;

verus! {

/// A finite binary floating-point number: `mantissa` times two to the power
/// `exponent`, negated when `negative` is set.
#[derive(Clone, Copy, Debug, PartialEq, Eq, Structural)]
pub struct Unpacked {
    pub negative: bool,
    pub mantissa: u64,
    pub exponent: i32,
}

/// An IEEE 754 interchange format.
#[derive(Clone, Copy, Debug, PartialEq, Eq, Structural)]
pub enum Format {
    Half,
    Single,
    Double,
}

impl Format {
    /// Two to the number of fraction bits.
    pub open spec fn fraction(self) -> u64 {
        match self {
            Format::Half => 0x400,
            Format::Single => 0x80_0000,
            Format::Double => 0x10_0000_0000_0000,
        }
    }

    /// Two to the number of exponent bits.
    pub open spec fn fields(self) -> u64 {
        match self {
            Format::Half => 0x20,
            Format::Single => 0x100,
            Format::Double => 0x800,
        }
    }

    /// The exponent bias plus the number of fraction bits.
    pub open spec fn bias(self) -> int {
        match self {
            Format::Half => 25,
            Format::Single => 150,
            Format::Double => 1075,
        }
    }
}

/// The number that `bits` holds in `format`, or `None` for an infinity or a
/// NaN.
pub open spec fn unpacked(bits: u64, format: Format) -> Option<Unpacked> {
    let fraction = bits % format.fraction();
    let field = (bits / format.fraction()) % format.fields();
    let negative = (bits / format.fraction() / format.fields()) % 2 == 1;
    if field == format.fields() - 1 {
        None
    } else if field == 0 {
        Some(Unpacked { negative, mantissa: fraction, exponent: (1 - format.bias()) as i32 })
    } else {
        Some(
            Unpacked {
                negative,
                mantissa: (format.fraction() + fraction) as u64,
                exponent: (field - format.bias()) as i32,
            },
        )
    }
}

/// Read the number that `bits` holds.
pub fn unpack(bits: u64, format: Format) -> (number: Option<Unpacked>)
    ensures
        number == unpacked(bits, format),
        number matches Some(n) ==> n.mantissa < 0x20_0000_0000_0000 && -1075 < n.exponent < 1024,
{
    let (fraction_size, fields, bias): (u64, u64, i32) = match format {
        Format::Half => (0x400, 0x20, 25),
        Format::Single => (0x80_0000, 0x100, 150),
        Format::Double => (0x10_0000_0000_0000, 0x800, 1075),
    };
    let fraction: u64 = bits % fraction_size;
    let field: u64 = (bits / fraction_size) % fields;
    let negative: bool = (bits / fraction_size / fields) % 2 == 1;
    if field == fields - 1 {
        None
    } else if field == 0 {
        Some(Unpacked { negative, mantissa: fraction, exponent: 1 - bias })
    } else {
        Some(
            Unpacked {
                negative,
                mantissa: fraction_size + fraction,
                exponent: field as i32 - bias,
            },
        )
    }
}

/// How many low bits of `p` a double cannot hold.
pub open spec fn excess(p: nat) -> nat
    decreases p,
{
    if p < 0x20_0000_0000_0000 {
        0
    } else {
        1 + excess(p / 2)
    }
}

/// `p` rounded to 53 significant bits, to the even neighbour in a tie.
pub open spec fn round53(p: nat) -> nat {
    let unit = pow2(excess(p));
    let quotient = p / unit;
    let rest = p % unit;
    if 2 * rest > unit || (2 * rest == unit && quotient % 2 == 1) {
        (quotient + 1) * unit
    } else {
        quotient * unit
    }
}

/// Round `p` to 53 significant bits.
pub fn round_to_double(p: u128) -> (rounded: u128)
    requires
        p < 0x1_0000_0000_0000_0000_0000_0000,
    ensures
        rounded == round53(p as nat),
        rounded < 0x2_0000_0000_0000_0000_0000_0000,
{
    let mut unit: u128 = 1;
    let ghost mut k: nat = 0;
    proof {
        lemma2_to64();
    }
    while p / unit >= 0x20_0000_0000_0000
        invariant
            p < 0x1_0000_0000_0000_0000_0000_0000,
            unit == pow2(k),
            0 < unit,
            unit <= p || unit == 1,
            excess(p as nat) == k + excess(p as nat / unit as nat),
        decreases p / unit,
    {
        proof {
            lemma_div_denominator(p as int, unit as int, 2);
            lemma_pow2_unfold(k + 1);
            assert(unit * 0x20_0000_0000_0000 <= p) by {
                lemma_fundamental_div_mod(p as int, unit as int);
                assert(unit * (p / unit) >= unit * 0x20_0000_0000_0000) by (nonlinear_arith)
                    requires
                        p / unit >= 0x20_0000_0000_0000,
                        unit > 0,
                ;
            }
            k = k + 1;
        }
        unit = unit * 2;
    }
    let quotient: u128 = p / unit;
    let rest: u128 = p % unit;
    proof {
        lemma_fundamental_div_mod(p as int, unit as int);
        assert(quotient * unit == unit * quotient) by (nonlinear_arith);
        assert((quotient + 1) * unit == quotient * unit + unit) by (nonlinear_arith);
    }
    if 2 * rest > unit || (2 * rest == unit && quotient % 2 == 1) {
        (quotient + 1) * unit
    } else {
        quotient * unit
    }
}

/// `v` times two to the power `e`, rounded toward zero.
pub open spec fn shift_floor(v: nat, e: int) -> nat {
    if e >= 0 {
        v * pow2(e as nat)
    } else {
        v / pow2((-e) as nat)
    }
}

/// `v` times two to the power `e`, rounded to the nearest whole number, up in
/// a tie.
pub open spec fn shift_round(v: nat, e: int) -> nat {
    if e >= 0 {
        v * pow2(e as nat)
    } else {
        (2 * v + pow2((-e) as nat)) / (2 * pow2((-e) as nat))
    }
}

/// `v` times two to the power `e` is a whole number.
pub open spec fn shift_is_whole(v: nat, e: int) -> bool {
    e >= 0 || v % pow2((-e) as nat) == 0
}

/// The limit at which [`ShiftedNumber`] stops counting.
pub open spec fn capped(n: nat) -> nat {
    if n < 0x1_0000_0000_0000_0000 {
        n
    } else {
        0x1_0000_0000_0000_0000
    }
}

/// The whole numbers near a binary number, each held at two to the power 64
/// when it is larger.
#[derive(Clone, Copy, Debug)]
pub struct ShiftedNumber {
    /// Rounded toward zero.
    pub floor: u128,
    /// Rounded to the nearest, up in a tie.
    pub nearest: u128,
    /// Whether the number is whole.
    pub whole: bool,
}

proof fn lemma_large_powers()
    ensures
        pow2(96) == 0x1_0000_0000_0000_0000_0000_0000,
        pow2(97) == 0x2_0000_0000_0000_0000_0000_0000,
        pow2(110) == 0x4000_0000_0000_0000_0000_0000_0000,
{
    lemma2_to64();
    lemma2_to64_rest();
    lemma_pow2_adds(32, 64);
    lemma_pow2_adds(33, 64);
    lemma_pow2_adds(46, 64);
}

fn power_of_two(k: u32) -> (p: u128)
    requires
        k <= 110,
    ensures
        p == pow2(k as nat),
        0 < p <= 0x4000_0000_0000_0000_0000_0000_0000,
{
    let mut p: u128 = 1;
    let mut i: u32 = 0;
    proof {
        lemma2_to64();
        lemma_large_powers();
    }
    while i < k
        invariant
            i <= k <= 110,
            p == pow2(i as nat),
            0 < p <= pow2(110),
            pow2(110) == 0x4000_0000_0000_0000_0000_0000_0000,
        decreases k - i,
    {
        proof {
            lemma_pow2_unfold((i + 1) as nat);
            if i + 1 < 110 {
                lemma_pow2_strictly_increases((i + 1) as nat, 110);
            }
        }
        p = p * 2;
        i = i + 1;
    }
    p
}

/// The whole numbers near `v` times two to the power `e`.
pub fn shift(v: u128, e: i32) -> (near: ShiftedNumber)
    requires
        v < 0x2_0000_0000_0000_0000_0000_0000,
        -2000 < e < 2000,
    ensures
        near.floor == capped(shift_floor(v as nat, e as int)),
        near.nearest == capped(shift_round(v as nat, e as int)),
        near.whole == shift_is_whole(v as nat, e as int),
{
    let cap: u128 = 0x1_0000_0000_0000_0000;
    if e >= 0 {
        let ghost product = v as nat * pow2(e as nat);
        if v == 0 {
            assert(product == 0) by (nonlinear_arith)
                requires
                    product == v * pow2(e as nat),
                    v == 0,
            ;
            return ShiftedNumber { floor: 0, nearest: 0, whole: true };
        }
        proof {
            lemma_pow2_pos(e as nat);
            assert(product >= v) by (nonlinear_arith)
                requires
                    product == v * pow2(e as nat),
                    pow2(e as nat) >= 1,
            ;
        }
        if e >= 64 {
            proof {
                lemma2_to64();
                if e > 64 {
                    lemma_pow2_strictly_increases(64, e as nat);
                }
                assert(product >= pow2(e as nat)) by (nonlinear_arith)
                    requires
                        product == v * pow2(e as nat),
                        v >= 1,
                ;
            }
            return ShiftedNumber { floor: cap, nearest: cap, whole: true };
        }
        if v >= cap {
            return ShiftedNumber { floor: cap, nearest: cap, whole: true };
        }
        let factor: u128 = power_of_two(e as u32);
        proof {
            lemma2_to64();
            lemma2_to64_rest();
            if e < 63 {
                lemma_pow2_strictly_increases(e as nat, 63);
            }
            assert(v * factor < 0x1_0000_0000_0000_0000 * 0x8000_0000_0000_0000) by (nonlinear_arith)
                requires
                    v < 0x1_0000_0000_0000_0000,
                    0 < factor <= 0x8000_0000_0000_0000,
            ;
        }
        let exact: u128 = v * factor;
        let kept: u128 = if exact < cap {
            exact
        } else {
            cap
        };
        ShiftedNumber { floor: kept, nearest: kept, whole: true }
    } else {
        let k: u32 = (-e) as u32;
        if k > 110 {
            proof {
                lemma_large_powers();
                lemma_pow2_strictly_increases(110, k as nat);
                let unit = pow2(k as nat) as int;
                vstd::arithmetic::div_mod::lemma_basic_div(v as int, unit);
                vstd::arithmetic::div_mod::lemma_basic_div(2 * v + unit, 2 * unit);
                vstd::arithmetic::div_mod::lemma_small_mod(v as nat, unit as nat);
            }
            return ShiftedNumber { floor: 0, nearest: 0, whole: v == 0 };
        }
        let unit: u128 = power_of_two(k);
        let floor: u128 = v / unit;
        let nearest: u128 = (2 * v + unit) / (2 * unit);
        let whole: bool = v % unit == 0;
        ShiftedNumber {
            floor: if floor < cap {
                floor
            } else {
                cap
            },
            nearest: if nearest < cap {
                nearest
            } else {
                cap
            },
            whole,
        }
    }
}

/// `number` times `factor`, rounded to a double, as a count of units of two to
/// the power of the number's exponent.
pub open spec fn product53(number: Unpacked, factor: u32) -> nat {
    round53((number.mantissa * factor) as nat)
}

/// The whole numbers near the magnitude of `number` times `factor`, after the
/// product is rounded to a double.
pub fn scale(number: Unpacked, factor: u32) -> (near: ShiftedNumber)
    requires
        number.mantissa < 0x20_0000_0000_0000,
        -1075 < number.exponent < 1024,
    ensures
        near.floor == capped(shift_floor(product53(number, factor), number.exponent as int)),
        near.nearest == capped(shift_round(product53(number, factor), number.exponent as int)),
        near.whole == shift_is_whole(product53(number, factor), number.exponent as int),
{
    proof {
        assert(number.mantissa * factor < 0x20_0000_0000_0000 * 0x1_0000_0000) by (nonlinear_arith)
            requires
                number.mantissa < 0x20_0000_0000_0000,
                factor < 0x1_0000_0000,
        ;
    }
    let product: u128 = number.mantissa as u128 * factor as u128;
    shift(round_to_double(product), number.exponent)
}

/// Two to the power `excess` divides what a double can hold of `p`.
proof fn lemma_excess(p: nat)
    ensures
        excess(p) > 0 ==> p >= 0x10_0000_0000_0000 * pow2(excess(p)),
    decreases p,
{
    lemma2_to64();
    if p >= 0x20_0000_0000_0000 {
        lemma_excess(p / 2);
        lemma_pow2_unfold(excess(p));
        let half = pow2(excess(p / 2));
        if excess(p / 2) > 0 {
            assert(p >= 2 * (p / 2));
        }
    }
}

/// Rounding to 53 bits does not pass a number that a double holds exactly.
pub proof fn lemma_round53_stays_below(p: nat, b: nat, j: nat)
    requires
        p <= b * pow2(j),
        b < 0x20_0000_0000_0000,
    ensures
        round53(p) <= b * pow2(j),
{
    let x = excess(p);
    let unit = pow2(x);
    let q = b * pow2(j);
    lemma_pow2_pos(x);
    lemma_pow2_pos(j);
    lemma_excess(p);
    lemma_fundamental_div_mod(p as int, unit as int);
    let quotient = p / unit;
    if x == 0 {
        lemma2_to64();
        assert(p % 1 == 0);
        assert(quotient * unit == p);
    } else if j < x {
        lemma_pow2_unfold(x);
        if j < x - 1 {
            lemma_pow2_strictly_increases(j, (x - 1) as nat);
        }
        assert(q < 0x20_0000_0000_0000 * pow2((x - 1) as nat)) by (nonlinear_arith)
            requires
                q == b * pow2(j),
                b < 0x20_0000_0000_0000,
                0 < pow2(j) <= pow2((x - 1) as nat),
        ;
        assert(false);
    } else {
        lemma_pow2_adds(x, (j - x) as nat);
        let c = b * pow2((j - x) as nat);
        assert(q == c * unit) by (nonlinear_arith)
            requires
                q == b * pow2(j),
                pow2(j) == unit * pow2((j - x) as nat),
                c == b * pow2((j - x) as nat),
        ;
        if p % unit == 0 {
            assert(2 * (p % unit) == 0);
            assert(quotient * unit == unit * quotient) by (nonlinear_arith);
        } else {
            assert(quotient < c) by (nonlinear_arith)
                requires
                    p == unit * quotient + p % unit,
                    p % unit > 0,
                    p <= c * unit,
                    unit > 0,
            ;
            assert((quotient + 1) * unit <= c * unit) by (nonlinear_arith)
                requires
                    quotient + 1 <= c,
                    unit > 0,
            ;
            assert(quotient * unit <= c * unit) by (nonlinear_arith)
                requires
                    quotient <= c,
                    unit > 0,
            ;
        }
    }
}

/// Rounding to 53 bits keeps a number that a double holds exactly.
pub proof fn lemma_round53_keeps_multiples(b: nat, j: nat)
    requires
        b < 0x20_0000_0000_0000,
    ensures
        round53(b * pow2(j)) == b * pow2(j),
{
    let p = b * pow2(j);
    let x = excess(p);
    let unit = pow2(x);
    lemma_pow2_pos(x);
    lemma_pow2_pos(j);
    lemma_excess(p);
    lemma_fundamental_div_mod(p as int, unit as int);
    if x == 0 {
        lemma2_to64();
        assert(p % 1 == 0);
    } else if j < x {
        lemma_pow2_unfold(x);
        if j < x - 1 {
            lemma_pow2_strictly_increases(j, (x - 1) as nat);
        }
        assert(p < 0x20_0000_0000_0000 * pow2((x - 1) as nat)) by (nonlinear_arith)
            requires
                p == b * pow2(j),
                b < 0x20_0000_0000_0000,
                0 < pow2(j) <= pow2((x - 1) as nat),
        ;
        assert(false);
    } else {
        lemma_pow2_adds(x, (j - x) as nat);
        let c = b * pow2((j - x) as nat);
        assert(p == c * unit) by (nonlinear_arith)
            requires
                p == b * pow2(j),
                pow2(j) == unit * pow2((j - x) as nat),
                c == b * pow2((j - x) as nat),
        ;
        lemma_mod_multiples_basic(c as int, unit as int);
        assert(p % unit == 0);
        assert((p / unit) * unit == unit * (p / unit)) by (nonlinear_arith);
    }
}

proof fn lemma_excess_is_ordered(p: nat, q: nat)
    requires
        p <= q,
    ensures
        excess(p) <= excess(q),
    decreases q,
{
    if p >= 0x20_0000_0000_0000 {
        lemma_excess_is_ordered(p / 2, q / 2);
    }
}

/// Without its excess bits a number fits in 53 bits.
proof fn lemma_excess_is_enough(p: nat)
    ensures
        p < 0x20_0000_0000_0000 * pow2(excess(p)),
    decreases p,
{
    lemma2_to64();
    if p >= 0x20_0000_0000_0000 {
        lemma_excess_is_enough(p / 2);
        lemma_pow2_unfold(excess(p));
    }
}

/// Rounding to 53 bits lands on one of the two neighbours.
proof fn lemma_round53_neighbours(p: nat)
    ensures
        0 < pow2(excess(p)),
        p == (p / pow2(excess(p))) * pow2(excess(p)) + p % pow2(excess(p)),
        (p / pow2(excess(p))) * pow2(excess(p)) <= round53(p),
        round53(p) <= (p / pow2(excess(p)) + 1) * pow2(excess(p)),
{
    let unit = pow2(excess(p));
    lemma_pow2_pos(excess(p));
    lemma_fundamental_div_mod(p as int, unit as int);
    let quotient = p / unit;
    assert(unit * quotient == quotient * unit) by (nonlinear_arith);
    assert((quotient + 1) * unit == quotient * unit + unit) by (nonlinear_arith);
}

/// Rounding to 53 bits keeps the order of numbers.
pub proof fn lemma_round53_is_ordered(p: nat, q: nat)
    requires
        p <= q,
    ensures
        round53(p) <= round53(q),
{
    let x = excess(p);
    let y = excess(q);
    lemma_excess_is_ordered(p, q);
    lemma_round53_neighbours(p);
    lemma_round53_neighbours(q);
    let small = pow2(x);
    let large = pow2(y);
    let a = p / small;
    let b = q / large;
    if x == y {
        vstd::arithmetic::div_mod::lemma_div_is_ordered(p as int, q as int, small as int);
        if a < b {
            assert((a + 1) * small <= b * small) by (nonlinear_arith)
                requires
                    a + 1 <= b,
            ;
        }
    } else {
        lemma_excess_is_enough(p);
        lemma_excess(q);
        lemma_pow2_unfold((x + 1) as nat);
        if x + 1 < y {
            lemma_pow2_strictly_increases((x + 1) as nat, y);
        }
        assert(a < 0x20_0000_0000_0000) by (nonlinear_arith)
            requires
                p == a * small + p % small,
                p < 0x20_0000_0000_0000 * small,
                0 <= p % small,
                0 < small,
        ;
        assert((a + 1) * small <= 0x20_0000_0000_0000 * small) by (nonlinear_arith)
            requires
                a + 1 <= 0x20_0000_0000_0000,
        ;
        assert(b >= 0x10_0000_0000_0000) by (nonlinear_arith)
            requires
                q == b * large + q % large,
                q >= 0x10_0000_0000_0000 * large,
                q % large < large,
                0 < large,
        ;
        assert(0x10_0000_0000_0000 * large <= b * large) by (nonlinear_arith)
            requires
                b >= 0x10_0000_0000_0000,
        ;
    }
}

/// Rounding to 53 bits commutes with doubling.
proof fn lemma_round53_doubles(p: nat)
    ensures
        round53(2 * p) == 2 * round53(p),
{
    lemma2_to64();
    let q = (2 * p) as nat;
    assert(q / 2 == p);
    if p < 0x10_0000_0000_0000 {
        assert(excess(p) == 0 && excess(q) == 0);
        assert(p / 1 == p && q / 1 == q && p % 1 == 0 && q % 1 == 0);
        assert(p * 1 == p && q * 1 == q);
    } else {
        let unit = pow2(excess(p));
        lemma_pow2_pos(excess(p));
        assert(excess(q) == 1 + excess(p));
        lemma_pow2_unfold(excess(q));
        assert(pow2(excess(q)) == 2 * unit);
        lemma_fundamental_div_mod(p as int, unit as int);
        let quotient = p / unit;
        let rest = p % unit;
        assert(q == quotient * (2 * unit) + 2 * rest) by (nonlinear_arith)
            requires
                q == 2 * p,
                p == unit * quotient + rest,
        ;
        vstd::arithmetic::div_mod::lemma_fundamental_div_mod_converse(
            q as int,
            (2 * unit) as int,
            quotient as int,
            (2 * rest) as int,
        );
        let twice = pow2(excess(q));
        assert(q / twice == quotient && q % twice == 2 * rest);
        assert((quotient + 1) * (2 * unit) == 2 * ((quotient + 1) * unit)) by (nonlinear_arith);
        assert(quotient * (2 * unit) == 2 * (quotient * unit)) by (nonlinear_arith);
    }
}

/// Rounding to 53 bits commutes with a shift to the left.
pub proof fn lemma_round53_shifts(p: nat, d: nat)
    ensures
        round53(p * pow2(d)) == round53(p) * pow2(d),
    decreases d,
{
    lemma2_to64();
    if d == 0 {
        assert(p * 1 == p && round53(p) * 1 == round53(p));
    } else {
        let e = (d - 1) as nat;
        lemma_round53_shifts(p, e);
        lemma_pow2_unfold(d);
        lemma_round53_doubles(p * pow2(e));
        assert(p * pow2(d) == 2 * (p * pow2(e))) by (nonlinear_arith)
            requires
                pow2(d) == 2 * pow2(e),
        ;
        assert(round53(p) * pow2(d) == 2 * (round53(p) * pow2(e))) by (nonlinear_arith)
            requires
                pow2(d) == 2 * pow2(e),
        ;
    }
}

/// Rounding to a double keeps every number of at most 53 bits and changes any
/// other by at most the part of it that 53 bits cannot tell. Doubling a number
/// doubles what it is rounded to.
pub proof fn law_rounding_is_to_the_nearest(p: nat)
    ensures
        p < 0x20_0000_0000_0000 ==> round53(p) == p,
        0x20_0000_0000_0000 * (round53(p) - p) <= p,
        0x20_0000_0000_0000 * (p - round53(p)) <= p,
        round53(2 * p) == 2 * round53(p),
{
    let unit = pow2(excess(p));
    lemma2_to64();
    lemma_round53_neighbours(p);
    lemma_excess(p);
    lemma_round53_doubles(p);
    let quotient = p / unit;
    assert((quotient + 1) * unit == quotient * unit + unit) by (nonlinear_arith);
    vstd::arithmetic::div_mod::lemma_mod_bound(p as int, unit as int);
    if excess(p) == 0 {
        assert(p % 1 == 0);
    }
}

/// A number halfway between two neighbours goes to the even one.
pub proof fn law_ties_go_to_the_even_neighbour(q: nat)
    requires
        0x10_0000_0000_0000 <= q < 0x20_0000_0000_0000,
    ensures
        q % 2 == 0 ==> round53(2 * q + 1) == 2 * q,
        q % 2 == 1 ==> round53(2 * q + 1) == 2 * q + 2,
{
    let p = (2 * q + 1) as nat;
    lemma2_to64();
    assert(p / 2 == q && p % 2 == 1);
    assert(excess(p) == 1 + excess(q));
    assert(excess(q) == 0);
}

/// Counting patterns upward from zero, every pattern adds one unit of the number
/// before it. The unit starts at the smallest number of the format, and doubles
/// whenever the mantissa has run through. Counting ends at the infinity.
pub proof fn law_the_next_pattern_is_one_unit_up(bits: u64, format: Format)
    requires
        bits + 1 < format.fraction() * format.fields(),
    ensures
        unpacked(0, format) matches Some(zero) && !zero.negative && zero.mantissa == 0
            && zero.exponent == match format {
            Format::Half => -24int,
            Format::Single => -149,
            Format::Double => -1074,
        },
        unpacked(bits, format) is None <==> bits >= match format {
            Format::Half => 0x7c00u64,
            Format::Single => 0x7f80_0000,
            Format::Double => 0x7ff0_0000_0000_0000,
        },
        match (unpacked(bits, format), unpacked((bits + 1) as u64, format)) {
            (Some(a), Some(b)) => {
                &&& !a.negative && !b.negative
                &&& (b.exponent == a.exponent && b.mantissa == a.mantissa + 1) || (b.exponent
                    == a.exponent + 1 && 2 * b.mantissa == a.mantissa + 1)
            },
            (None, Some(_)) => false,
            _ => true,
        },
{
    match format {
        Format::Half => {
            let (f, n) = (0x400u64, 0x20u64);
            assert(f * n == 0x8000);
            assert(bits / f < n && (bits + 1) / f as int <= n);
        },
        Format::Single => {
            let (f, n) = (0x80_0000u64, 0x100u64);
            assert(f * n == 0x8000_0000);
            assert(bits / f < n && (bits + 1) / f as int <= n);
        },
        Format::Double => {
            let (f, n) = (0x10_0000_0000_0000u64, 0x800u64);
            assert(f * n == 0x8000_0000_0000_0000);
            assert(bits / f < n && (bits + 1) / f as int <= n);
        },
    }
}

/// The highest bit of a pattern is the sign alone.
pub proof fn law_the_sign_is_the_highest_bit(bits: u64, format: Format)
    requires
        bits < format.fraction() * format.fields(),
    ensures
        ({
            let other = (bits + format.fraction() * format.fields()) as u64;
            match unpacked(bits, format) {
                None => unpacked(other, format) is None,
                Some(n) => !n.negative && unpacked(other, format) == Some(
                    Unpacked { negative: true, ..n },
                ),
            }
        }),
{
    match format {
        Format::Half => {
            let (f, n) = (0x400u64, 0x20u64);
            let other = (bits + 0x8000) as u64;
            assert(f * n == 0x8000);
            assert(other / f == bits / f + n && other % f == bits % f);
        },
        Format::Single => {
            let (f, n) = (0x80_0000u64, 0x100u64);
            let other = (bits + 0x8000_0000) as u64;
            assert(f * n == 0x8000_0000);
            assert(other / f == bits / f + n && other % f == bits % f);
        },
        Format::Double => {
            let (f, n) = (0x10_0000_0000_0000u64, 0x800u64);
            let other = (bits + 0x8000_0000_0000_0000) as u64;
            assert(f * n == 0x8000_0000_0000_0000);
            assert(other / f == bits / f + n && other % f == bits % f);
        },
    }
}

/// Shifting right rounds down to a whole number, or to the nearest one and up
/// from the middle, and shifting left multiplies.
pub proof fn law_shifts_lose_less_than_a_unit(v: nat, k: nat)
    ensures
        shift_floor(v, -k) * pow2(k) <= v,
        v < (shift_floor(v, -k) + 1) * pow2(k),
        (2 * shift_round(v, -k) - 1) * pow2(k) <= 2 * v,
        2 * v < (2 * shift_round(v, -k) + 1) * pow2(k),
        shift_is_whole(v, -k) <==> shift_floor(v, -k) * pow2(k) == v,
        shift_floor(v, k as int) == v * pow2(k),
        shift_round(v, k as int) == v * pow2(k),
        shift_is_whole(v, k as int),
{
    let unit = pow2(k) as int;
    lemma_pow2_pos(k);
    lemma2_to64();
    lemma_fundamental_div_mod(v as int, unit);
    vstd::arithmetic::div_mod::lemma_mod_bound(v as int, unit);
    let q = v as int / unit;
    assert(q * unit == unit * q) by (nonlinear_arith);
    assert((q + 1) * unit == unit * q + unit) by (nonlinear_arith);
    let w = 2 * v + unit;
    lemma_fundamental_div_mod(w, 2 * unit);
    vstd::arithmetic::div_mod::lemma_mod_bound(w, 2 * unit);
    let r = w / (2 * unit);
    assert((2 * r - 1) * unit == 2 * unit * r - unit) by (nonlinear_arith);
    assert((2 * r + 1) * unit == 2 * unit * r + unit) by (nonlinear_arith);
    if k == 0 {
        assert(v * 1 == v);
        assert(v as int / 1 == v && v as int % 1 == 0);
    }
}

} // verus!
