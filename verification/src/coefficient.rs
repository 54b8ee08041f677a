//! Coefficient representations and conversions from wire milli values.
use crate::binary64::{
    law_rounding_is_to_the_nearest, law_shifts_lose_less_than_a_unit, lemma_round53_keeps_multiples,
    product53, round53, scale, shift_round, unpack, unpacked, Format, ShiftedNumber, Unpacked,
};
use crate::encoding::CoefficientEncoding;
use vstd::arithmetic::power2::{lemma_pow2_pos, pow2};
use vstd::prelude::*;

verus! {

/// Closes [`Coefficient`] to the representations of this module.
pub trait Sealed {

}

/// `milli` thousandths in steps of one `scale`th, rounded to the nearest step
/// and away from zero in a tie.
pub open spec fn nearest_step(milli: int, scale: int) -> int {
    let product = milli * scale;
    if product < 0 {
        -((-product + 500) / 1000)
    } else {
        (product + 500) / 1000
    }
}

/// `v`, or the nearer end of `low..=high` when it lies outside.
pub open spec fn clamp_to(v: int, low: int, high: int) -> int {
    if v < low {
        low
    } else if v > high {
        high
    } else {
        v
    }
}

/// A number in double precision times `scale`, rounded to a double, then
/// rounded to the nearest whole number and away from zero in a tie.
pub open spec fn nearest_product(unit: Unpacked, scale: u32) -> int {
    let magnitude = shift_round(product53(unit, scale), unit.exponent as int) as int;
    if unit.negative {
        -magnitude
    } else {
        magnitude
    }
}

/// A supported coefficient representation, sealed to this crate: a whole
/// number of steps, `scale` of them to the unit.
pub trait Coefficient: Sealed + Copy {
    /// Whether every wire coefficient survives conversion without loss.
    const EXACT: bool;

    /// Steps to the unit.
    spec fn scale() -> u32;

    /// The smallest number of steps the representation holds.
    spec fn lowest() -> int;

    /// The largest number of steps the representation holds.
    spec fn highest() -> int;

    /// The number of steps this value holds.
    spec fn stored(self) -> int;

    /// The wire encoding that holds the same whole number, if there is one.
    spec fn wire() -> Option<CoefficientEncoding>;

    /// A representation is exact when it holds every wire coefficient as it is,
    /// and only then.
    proof fn exact_holds_every_milli()
        ensures
            Self::EXACT <==> Self::scale() == 1000 && Self::lowest() <= i32::MIN && i32::MAX
                <= Self::highest(),
            i32::MIN <= Self::lowest() <= 0 <= Self::highest() <= i32::MAX,
    ;

    /// The wire encoding that holds the same whole number has this
    /// representation's range.
    proof fn wire_holds_its_steps()
        ensures
            match Self::wire() {
                None => true,
                Some(encoding) => {
                    ||| encoding == CoefficientEncoding::I8 && Self::lowest() == i8::MIN
                        && Self::highest() == i8::MAX
                    ||| encoding == CoefficientEncoding::I16 && Self::lowest() == i16::MIN
                        && Self::highest() == i16::MAX
                    ||| encoding == CoefficientEncoding::I32 && Self::lowest() == i32::MIN
                        && Self::highest() == i32::MAX
                },
            },
    ;

    /// Convert wire milli, rounding halfway values away from zero and saturating.
    fn from_milli(milli: i32) -> (c: Self)
        requires
            Self::scale() > 0,
        ensures
            c.stored() == clamp_to(
                nearest_step(milli as int, Self::scale() as int),
                Self::lowest(),
                Self::highest(),
            ),
    ;

    /// Convert units, given by the bit pattern of a double. Returns `None` for
    /// an infinity or a NaN, and saturates a finite number out of range.
    fn from_unit(unit_bits: u64) -> (c: Option<Self>)
        requires
            Self::scale() > 0,
        ensures
            match unpacked(unit_bits, Format::Double) {
                None => c is None,
                Some(unit) => c is Some && c->0.stored() == clamp_to(
                    nearest_product(unit, Self::scale()),
                    Self::lowest(),
                    Self::highest(),
                ),
            },
    ;

    /// Take a whole number of steps as it is.
    fn from_stored(steps: i32) -> (c: Self)
        requires
            Self::lowest() <= steps <= Self::highest(),
        ensures
            c.stored() == steps,
    ;

    /// The whole number of steps.
    fn to_stored(self) -> (steps: i32)
        ensures
            steps == self.stored(),
    ;

    /// Whether this value is exactly `milli` thousandths.
    fn holds(self, milli: i32) -> (exact: bool)
        ensures
            exact == (self.stored() * 1000 == milli * Self::scale()),
    ;

    /// The wire encoding that holds the same whole number, and its scale.
    fn wire_form() -> (form: Option<(CoefficientEncoding, u32)>)
        ensures
            form == match Self::wire() {
                Some(encoding) => Some((encoding, Self::scale())),
                None => None,
            },
    ;
}

/// A fixed-point coefficient storing units multiplied by `SCALE`.
///
/// `SCALE` must be positive.
#[derive(Clone, Copy, Debug, PartialEq, Eq)]
pub struct Fixed<T, const SCALE: u32>(
    /// Stored integer, equal to units multiplied by `SCALE`.
    pub T,
);

/// Exact wire milli coefficients.
pub type Milli = Fixed<i32, 1000>;

/// A signed four-bit integer stored in one byte.
#[derive(Clone, Copy, Debug, PartialEq, Eq)]
pub struct I4(i8);

impl I4 {
    /// Smallest stored value.
    pub const MIN: i8 = -8;

    /// Largest stored value.
    pub const MAX: i8 = 7;

    #[verifier::type_invariant]
    spec fn in_range(self) -> bool {
        Self::MIN <= self.0 <= Self::MAX
    }

    /// The stored signed integer.
    pub closed spec fn value(self) -> i8 {
        self.0
    }

    /// Construct a value in `-8..=7`, or return `None`.
    #[must_use]
    pub fn new(value: i8) -> (nibble: Option<Self>)
        ensures
            nibble is Some <==> -8 <= value <= 7,
            nibble matches Some(n) ==> n.value() == value,
    {
        if value >= Self::MIN && value <= Self::MAX {
            Some(I4(value))
        } else {
            None
        }
    }

    /// Return the stored signed integer.
    #[must_use]
    pub fn get(self) -> (value: i8)
        ensures
            value == self.value(),
            -8 <= value <= 7,
    {
        proof {
            use_type_invariant(self);
        }
        self.0
    }
}

/// `milli` thousandths in steps of one `SCALE`th, rounded to the nearest step.
pub fn rounded_milli<const SCALE: u32>(milli: i32) -> (steps: i128)
    requires
        SCALE > 0,
    ensures
        steps == nearest_step(milli as int, SCALE as int),
        -0x4000_0000_0000_0000 < steps < 0x4000_0000_0000_0000,
{
    proof {
        assert(-0x8000_0000 * 0xffff_ffff <= milli * SCALE <= 0x7fff_ffff * 0xffff_ffff)
            by (nonlinear_arith)
            requires
                -0x8000_0000 <= milli <= 0x7fff_ffff,
                0 <= SCALE <= 0xffff_ffff,
        ;
    }
    let product: i128 = milli as i128 * SCALE as i128;
    if product < 0 {
        -((-product + 500) / 1000)
    } else {
        (product + 500) / 1000
    }
}

fn clamp_steps(v: i128, low: i32, high: i32) -> (kept: i32)
    requires
        low <= high,
    ensures
        kept == clamp_to(v as int, low as int, high as int),
{
    if v < low as i128 {
        low
    } else if v > high as i128 {
        high
    } else {
        v as i32
    }
}

/// The steps nearest to a double, kept inside `low..=high`.
fn unit_steps(unit_bits: u64, factor: u32, low: i32, high: i32) -> (steps: Option<i32>)
    requires
        low <= 0 <= high,
    ensures
        steps == match unpacked(unit_bits, Format::Double) {
            None => None,
            Some(unit) => Some(
                clamp_to(nearest_product(unit, factor), low as int, high as int) as i32,
            ),
        },
{
    match unpack(unit_bits, Format::Double) {
        None => None,
        Some(unit) => {
            let near: ShiftedNumber = scale(unit, factor);
            let magnitude: i128 = near.nearest as i128;
            let signed: i128 = if unit.negative {
                -magnitude
            } else {
                magnitude
            };
            Some(clamp_steps(signed, low, high))
        },
    }
}

impl<const SCALE: u32> Sealed for Fixed<i32, SCALE> {

}

impl<const SCALE: u32> Coefficient for Fixed<i32, SCALE> {
    const EXACT: bool = SCALE == 1000;

    open spec fn scale() -> u32 {
        SCALE
    }

    open spec fn lowest() -> int {
        i32::MIN as int
    }

    open spec fn highest() -> int {
        i32::MAX as int
    }

    open spec fn stored(self) -> int {
        self.0 as int
    }

    open spec fn wire() -> Option<CoefficientEncoding> {
        Some(CoefficientEncoding::I32)
    }

    proof fn exact_holds_every_milli() {
    }

    proof fn wire_holds_its_steps() {
    }

    fn from_milli(milli: i32) -> (c: Self) {
        let steps: i32 = clamp_steps(rounded_milli::<SCALE>(milli), i32::MIN, i32::MAX);
        Fixed(steps)
    }

    fn from_unit(unit_bits: u64) -> (c: Option<Self>) {
        match unit_steps(unit_bits, SCALE, i32::MIN, i32::MAX) {
            None => None,
            Some(steps) => Some(Fixed(steps)),
        }
    }

    fn from_stored(steps: i32) -> (c: Self) {
        Fixed(steps)
    }

    fn to_stored(self) -> (steps: i32) {
        self.0
    }

    fn holds(self, milli: i32) -> (exact: bool) {
        proof {
            assert(-0x8000_0000 * 0xffff_ffff <= milli * SCALE <= 0x7fff_ffff * 0xffff_ffff)
                by (nonlinear_arith)
                requires
                    -0x8000_0000 <= milli <= 0x7fff_ffff,
                    0 <= SCALE <= 0xffff_ffff,
            ;
        }
        self.0 as i128 * 1000 == milli as i128 * SCALE as i128
    }

    fn wire_form() -> (form: Option<(CoefficientEncoding, u32)>) {
        Some((CoefficientEncoding::I32, SCALE))
    }
}

impl<const SCALE: u32> Sealed for Fixed<i16, SCALE> {

}

impl<const SCALE: u32> Coefficient for Fixed<i16, SCALE> {
    const EXACT: bool = false;

    open spec fn scale() -> u32 {
        SCALE
    }

    open spec fn lowest() -> int {
        i16::MIN as int
    }

    open spec fn highest() -> int {
        i16::MAX as int
    }

    open spec fn stored(self) -> int {
        self.0 as int
    }

    open spec fn wire() -> Option<CoefficientEncoding> {
        Some(CoefficientEncoding::I16)
    }

    proof fn exact_holds_every_milli() {
    }

    proof fn wire_holds_its_steps() {
    }

    fn from_milli(milli: i32) -> (c: Self) {
        let steps: i32 = clamp_steps(rounded_milli::<SCALE>(milli), i16::MIN as i32, i16::MAX as i32);
        Fixed(steps as i16)
    }

    fn from_unit(unit_bits: u64) -> (c: Option<Self>) {
        match unit_steps(unit_bits, SCALE, i16::MIN as i32, i16::MAX as i32) {
            None => None,
            Some(steps) => Some(Fixed(steps as i16)),
        }
    }

    fn from_stored(steps: i32) -> (c: Self) {
        Fixed(steps as i16)
    }

    fn to_stored(self) -> (steps: i32) {
        self.0 as i32
    }

    fn holds(self, milli: i32) -> (exact: bool) {
        proof {
            assert(-0x8000_0000 * 0xffff_ffff <= milli * SCALE <= 0x7fff_ffff * 0xffff_ffff)
                by (nonlinear_arith)
                requires
                    -0x8000_0000 <= milli <= 0x7fff_ffff,
                    0 <= SCALE <= 0xffff_ffff,
            ;
        }
        self.0 as i128 * 1000 == milli as i128 * SCALE as i128
    }

    fn wire_form() -> (form: Option<(CoefficientEncoding, u32)>) {
        Some((CoefficientEncoding::I16, SCALE))
    }
}

impl<const SCALE: u32> Sealed for Fixed<i8, SCALE> {

}

impl<const SCALE: u32> Coefficient for Fixed<i8, SCALE> {
    const EXACT: bool = false;

    open spec fn scale() -> u32 {
        SCALE
    }

    open spec fn lowest() -> int {
        i8::MIN as int
    }

    open spec fn highest() -> int {
        i8::MAX as int
    }

    open spec fn stored(self) -> int {
        self.0 as int
    }

    open spec fn wire() -> Option<CoefficientEncoding> {
        Some(CoefficientEncoding::I8)
    }

    proof fn exact_holds_every_milli() {
    }

    proof fn wire_holds_its_steps() {
    }

    fn from_milli(milli: i32) -> (c: Self) {
        let steps: i32 = clamp_steps(rounded_milli::<SCALE>(milli), i8::MIN as i32, i8::MAX as i32);
        Fixed(steps as i8)
    }

    fn from_unit(unit_bits: u64) -> (c: Option<Self>) {
        match unit_steps(unit_bits, SCALE, i8::MIN as i32, i8::MAX as i32) {
            None => None,
            Some(steps) => Some(Fixed(steps as i8)),
        }
    }

    fn from_stored(steps: i32) -> (c: Self) {
        Fixed(steps as i8)
    }

    fn to_stored(self) -> (steps: i32) {
        self.0 as i32
    }

    fn holds(self, milli: i32) -> (exact: bool) {
        proof {
            assert(-0x8000_0000 * 0xffff_ffff <= milli * SCALE <= 0x7fff_ffff * 0xffff_ffff)
                by (nonlinear_arith)
                requires
                    -0x8000_0000 <= milli <= 0x7fff_ffff,
                    0 <= SCALE <= 0xffff_ffff,
            ;
        }
        self.0 as i128 * 1000 == milli as i128 * SCALE as i128
    }

    fn wire_form() -> (form: Option<(CoefficientEncoding, u32)>) {
        Some((CoefficientEncoding::I8, SCALE))
    }
}

impl<const SCALE: u32> Sealed for Fixed<I4, SCALE> {

}

impl<const SCALE: u32> Coefficient for Fixed<I4, SCALE> {
    const EXACT: bool = false;

    open spec fn scale() -> u32 {
        SCALE
    }

    open spec fn lowest() -> int {
        I4::MIN as int
    }

    open spec fn highest() -> int {
        I4::MAX as int
    }

    open spec fn stored(self) -> int {
        self.0.value() as int
    }

    open spec fn wire() -> Option<CoefficientEncoding> {
        None
    }

    proof fn exact_holds_every_milli() {
    }

    proof fn wire_holds_its_steps() {
    }

    fn from_milli(milli: i32) -> (c: Self) {
        let steps: i32 = clamp_steps(rounded_milli::<SCALE>(milli), I4::MIN as i32, I4::MAX as i32);
        Fixed(I4(steps as i8))
    }

    fn from_unit(unit_bits: u64) -> (c: Option<Self>) {
        match unit_steps(unit_bits, SCALE, I4::MIN as i32, I4::MAX as i32) {
            None => None,
            Some(steps) => Some(Fixed(I4(steps as i8))),
        }
    }

    fn from_stored(steps: i32) -> (c: Self) {
        Fixed(I4(steps as i8))
    }

    fn to_stored(self) -> (steps: i32) {
        self.0.get() as i32
    }

    fn holds(self, milli: i32) -> (exact: bool) {
        proof {
            assert(-0x8000_0000 * 0xffff_ffff <= milli * SCALE <= 0x7fff_ffff * 0xffff_ffff)
                by (nonlinear_arith)
                requires
                    -0x8000_0000 <= milli <= 0x7fff_ffff,
                    0 <= SCALE <= 0xffff_ffff,
            ;
        }
        self.0.get() as i128 * 1000 == milli as i128 * SCALE as i128
    }

    fn wire_form() -> (form: Option<(CoefficientEncoding, u32)>) {
        None
    }
}

/// Thousandths in 32 bits are exact, and no other representation is.
pub proof fn law_only_thousandths_are_exact<const SCALE: u32>()
    ensures
        Milli::EXACT,
        Fixed::<i32, SCALE>::EXACT == (SCALE == 1000),
        !Fixed::<i16, SCALE>::EXACT,
        !Fixed::<i8, SCALE>::EXACT,
        !Fixed::<I4, SCALE>::EXACT,
{
}

/// Conversion picks the nearest step: what it adds or drops is at most half a
/// step.
pub proof fn law_conversion_is_to_the_nearest_step(milli: int, scale: int)
    requires
        scale > 0,
    ensures
        -500 <= nearest_step(milli, scale) * 1000 - milli * scale <= 500,
{
}

/// Conversion keeps the sign: negating a coefficient negates its steps.
pub proof fn law_conversion_is_odd(milli: int, scale: int)
    ensures
        nearest_step(-milli, scale) == -nearest_step(milli, scale),
{
    assert((-milli) * scale == -(milli * scale)) by (nonlinear_arith);
}

/// Conversion keeps the order of coefficients, also where it saturates.
pub proof fn law_conversion_keeps_order(a: int, b: int, scale: int, low: int, high: int)
    requires
        a <= b,
        scale > 0,
        low <= high,
    ensures
        nearest_step(a, scale) <= nearest_step(b, scale),
        clamp_to(nearest_step(a, scale), low, high) <= clamp_to(
            nearest_step(b, scale),
            low,
            high,
        ),
{
    assert(a * scale <= b * scale) by (nonlinear_arith)
        requires
            a <= b,
            scale > 0,
    ;
}

/// Conversion from units is to the nearest step of the exact product, but for
/// what a double cannot tell, and keeps the sign. A unit that is exactly a whole
/// number of steps becomes that number.
pub proof fn law_units_become_the_nearest_step(unit: Unpacked, scale: u32, k: nat)
    requires
        unit.exponent == -k,
    ensures
        ({
            let exact = unit.mantissa * scale;
            let steps = nearest_product(unit, scale);
            let size = if steps < 0 {
                -steps
            } else {
                steps
            };
            &&& unit.negative ==> steps <= 0
            &&& !unit.negative ==> steps >= 0
            &&& 0x20_0000_0000_0000 * (size * pow2(k) - exact) <= exact + 0x10_0000_0000_0000 * pow2(
                k,
            )
            &&& 0x20_0000_0000_0000 * (exact - size * pow2(k)) <= exact + 0x10_0000_0000_0000 * pow2(
                k,
            )
            &&& forall|s: nat|
                s < 0x20_0000_0000_0000 && exact == #[trigger] (s * pow2(k)) ==> size == s
        }),
{
    let exact = (unit.mantissa * scale) as nat;
    let rounded = round53(exact);
    let size = shift_round(rounded, unit.exponent as int);
    law_rounding_is_to_the_nearest(exact);
    law_shifts_lose_less_than_a_unit(rounded, k);
    let power = pow2(k) as int;
    lemma_pow2_pos(k);
    assert((2 * size - 1) * power == 2 * (size * power) - power) by (nonlinear_arith);
    assert((2 * size + 1) * power == 2 * (size * power) + power) by (nonlinear_arith);
    assert forall|s: nat| s < 0x20_0000_0000_0000 && exact == #[trigger] (s * pow2(k)) implies size
        == s by {
        lemma_round53_keeps_multiples(s, k);
        assert(s == size) by (nonlinear_arith)
            requires
                2 * (size * power) - power <= 2 * (s * power),
                2 * (s * power) < 2 * (size * power) + power,
                power > 0,
        ;
    }
}

/// A value in range is kept, and one out of range becomes the nearer end.
pub proof fn law_saturation_keeps_what_fits(v: int, low: int, high: int)
    requires
        low <= high,
    ensures
        low <= v <= high ==> clamp_to(v, low, high) == v,
        v <= low ==> clamp_to(v, low, high) == low,
        v >= high ==> clamp_to(v, low, high) == high,
{
}

/// Exactly halfway between two steps conversion goes away from zero.
pub proof fn law_halves_go_away_from_zero(milli: int, scale: int)
    ensures
        2 * (nearest_step(milli, scale) * 1000 - milli * scale) == 1000 ==> milli * scale > 0,
        2 * (nearest_step(milli, scale) * 1000 - milli * scale) == -1000 ==> milli * scale < 0,
{
}

/// Conversion of a large unit, one without binary places, is off by no more than
/// a double cannot tell, and exact where the product fits in one.
pub proof fn law_large_units_are_multiplied(unit: Unpacked, scale: u32, k: nat)
    requires
        unit.exponent == k,
    ensures
        ({
            let exact = unit.mantissa * scale * pow2(k);
            let steps = nearest_product(unit, scale);
            let size = if steps < 0 {
                -steps
            } else {
                steps
            };
            &&& unit.negative ==> steps <= 0
            &&& !unit.negative ==> steps >= 0
            &&& 0x20_0000_0000_0000 * (size - exact) <= exact
            &&& 0x20_0000_0000_0000 * (exact - size) <= exact
            &&& unit.mantissa * scale < 0x20_0000_0000_0000 ==> size == exact
        }),
{
    let p = (unit.mantissa * scale) as nat;
    let r = round53(p);
    law_rounding_is_to_the_nearest(p);
    law_shifts_lose_less_than_a_unit(r, k);
    let power = pow2(k) as int;
    lemma_pow2_pos(k);
    assert(0 <= r * power) by (nonlinear_arith)
        requires
            power > 0,
    ;
    assert(0x20_0000_0000_0000 * (r * power - p * power) <= p * power) by (nonlinear_arith)
        requires
            0x20_0000_0000_0000 * (r - p) <= p,
            power > 0,
    ;
    assert(0x20_0000_0000_0000 * (p * power - r * power) <= p * power) by (nonlinear_arith)
        requires
            0x20_0000_0000_0000 * (p - r) <= p,
            power > 0,
    ;
}

/// A fixed-point coefficient holds its stored integer as it is, in as many steps
/// to the unit as its type says, over the whole range of that integer.
pub proof fn law_storage_sets_the_range<const SCALE: u32>(
    a: Fixed<i32, SCALE>,
    b: Fixed<i16, SCALE>,
    c: Fixed<i8, SCALE>,
    d: Fixed<I4, SCALE>,
)
    ensures
        a.stored() == a.0 && b.stored() == b.0 && c.stored() == c.0 && d.stored() == d.0.value(),
        Fixed::<i32, SCALE>::scale() == SCALE && Fixed::<i16, SCALE>::scale() == SCALE,
        Fixed::<i8, SCALE>::scale() == SCALE && Fixed::<I4, SCALE>::scale() == SCALE,
        Fixed::<i32, SCALE>::lowest() == i32::MIN && Fixed::<i32, SCALE>::highest() == i32::MAX,
        Fixed::<i16, SCALE>::lowest() == i16::MIN && Fixed::<i16, SCALE>::highest() == i16::MAX,
        Fixed::<i8, SCALE>::lowest() == i8::MIN && Fixed::<i8, SCALE>::highest() == i8::MAX,
        Fixed::<I4, SCALE>::lowest() == -8 && Fixed::<I4, SCALE>::highest() == 7,
{
}

} // verus!
