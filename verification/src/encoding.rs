//! Validated coefficient decoding and per-problem exactness.
use crate::binary64::{
    law_rounding_is_to_the_nearest, law_shifts_lose_less_than_a_unit, lemma_round53_keeps_multiples,
    product53, round53, scale, shift_floor, shift_is_whole, unpack, unpacked, Format, ShiftedNumber,
    Unpacked,
};
use crate::coefficient::{
    clamp_to, law_conversion_is_to_the_nearest_step, nearest_step, Coefficient,
};
use crate::message::{IsingProblem, RejectReason};
use crate::wire::{chunk, le_number, le_signed, read_le, read_signed};
use vstd::arithmetic::div_mod::{lemma_fundamental_div_mod, lemma_fundamental_div_mod_converse};
use vstd::arithmetic::power2::{lemma_pow2_pos, pow2};
use vstd::prelude::*;

verus! {

/// How the coefficients of a problem are stored on the wire.
#[derive(Clone, Copy, Debug, PartialEq, Eq, Structural)]
pub enum CoefficientEncoding {
    Unspecified,
    I8,
    I16,
    I32,
    F16,
    F32,
    F64,
}

impl CoefficientEncoding {
    /// Bytes to the coefficient.
    pub open spec fn width(self) -> int {
        match self {
            CoefficientEncoding::Unspecified | CoefficientEncoding::I8 => 1,
            CoefficientEncoding::I16 | CoefficientEncoding::F16 => 2,
            CoefficientEncoding::I32 | CoefficientEncoding::F32 => 4,
            CoefficientEncoding::F64 => 8,
        }
    }

    /// The floating-point format of a float encoding.
    pub open spec fn format(self) -> Option<Format> {
        match self {
            CoefficientEncoding::F16 => Some(Format::Half),
            CoefficientEncoding::F32 => Some(Format::Single),
            CoefficientEncoding::F64 => Some(Format::Double),
            _ => None,
        }
    }

    /// Whether `scale` may stand beside this encoding: steps to the unit for a
    /// whole number, nothing for a float.
    pub open spec fn admits(self, scale: u32) -> bool {
        match self {
            CoefficientEncoding::Unspecified => false,
            CoefficientEncoding::I8 | CoefficientEncoding::I16 | CoefficientEncoding::I32 => scale
                != 0,
            _ => scale == 0,
        }
    }
}

/// `value` steps of one `scale`th in thousandths, when that is a whole number
/// of thousandths in the 32-bit range.
pub open spec fn whole_milli(value: int, scale: u32) -> Option<i32> {
    let product = value * 1000;
    if product % scale as int == 0 && i32::MIN <= product / scale as int <= i32::MAX {
        Some((product / scale as int) as i32)
    } else {
        None
    }
}

/// The number that `bits` holds in thousandths, when the product with one
/// thousand, rounded to a double, is a whole number in the 32-bit range.
pub open spec fn float_thousandths(bits: u64, format: Format) -> Option<i32> {
    match unpacked(bits, format) {
        None => None,
        Some(n) => {
            let product = product53(n, 1000);
            let whole = shift_floor(product, n.exponent as int) as int;
            let signed = if n.negative {
                -whole
            } else {
                whole
            };
            if shift_is_whole(product, n.exponent as int) && i32::MIN <= signed <= i32::MAX {
                Some(signed as i32)
            } else {
                None
            }
        },
    }
}

/// The coefficient that `bytes` hold, in thousandths.
pub open spec fn element(encoding: CoefficientEncoding, scale: u32, bytes: Seq<u8>) -> Option<i32> {
    match encoding.format() {
        Some(format) => float_thousandths(le_number(bytes) as u64, format),
        None => whole_milli(le_signed(bytes), scale),
    }
}

/// How many coefficients `bytes` hold.
pub open spec fn element_count(encoding: CoefficientEncoding, bytes: Seq<u8>) -> int {
    bytes.len() as int / encoding.width()
}

/// Every coefficient in `bytes` is complete and is a whole number of
/// thousandths in range.
pub open spec fn elements_ok(encoding: CoefficientEncoding, scale: u32, bytes: Seq<u8>) -> bool {
    &&& bytes.len() as int % encoding.width() == 0
    &&& forall|i: int|
        0 <= i < element_count(encoding, bytes) ==> #[trigger] element(
            encoding,
            scale,
            chunk(bytes, encoding.width(), i),
        ) is Some
}

/// The coefficients in `bytes`, in thousandths.
pub open spec fn elements(encoding: CoefficientEncoding, scale: u32, bytes: Seq<u8>) -> Seq<i32> {
    Seq::new(
        element_count(encoding, bytes) as nat,
        |i: int| element(encoding, scale, chunk(bytes, encoding.width(), i))->0,
    )
}

/// The coefficients of a problem can be read.
pub open spec fn decodable(
    encoding: Option<CoefficientEncoding>,
    scale: u32,
    h: Seq<u8>,
    j: Seq<u8>,
) -> bool {
    match encoding {
        None => false,
        Some(e) => e.admits(scale) && elements_ok(e, scale, h) && elements_ok(e, scale, j),
    }
}

/// `to` holds the coefficients `from`, each rounded and saturated.
pub open spec fn converts<C: Coefficient>(from: Seq<i32>, to: Seq<C>) -> bool {
    &&& to.len() == from.len()
    &&& forall|i: int|
        0 <= i < from.len() ==> (#[trigger] to[i]).stored() == clamp_to(
            nearest_step(from[i] as int, C::scale() as int),
            C::lowest(),
            C::highest(),
        )
}

/// No coefficient of `from` was changed on the way to `to`.
pub open spec fn keeps_all<C: Coefficient>(from: Seq<i32>, to: Seq<C>) -> bool {
    forall|i: int|
        0 <= i < from.len() ==> (#[trigger] to[i]).stored() * 1000 == from[i] * C::scale()
}

/// `to` holds the whole numbers of the wire as they are.
pub open spec fn copies<C: Coefficient>(bytes: Seq<u8>, width: int, to: Seq<C>) -> bool {
    &&& to.len() == bytes.len() as int / width
    &&& forall|i: int|
        0 <= i < to.len() ==> (#[trigger] to[i]).stored() == le_signed(chunk(bytes, width, i))
}

/// Fields and couplings in the chosen representation, and the thousandths that
/// they came from when the representation changed one of them.
pub struct Decoded<C> {
    pub h: Vec<C>,
    pub j: Vec<C>,
    pub exact_milli: Option<(Vec<i32>, Vec<i32>)>,
}

/// Convert one list. Also says whether every value was kept.
fn convert_list<C: Coefficient>(values: &[i32]) -> (converted: (Vec<C>, bool))
    requires
        C::scale() > 0,
    ensures
        converts(values@, converted.0@),
        converted.1 == keeps_all(values@, converted.0@),
{
    let mut out: Vec<C> = Vec::new();
    let mut exact: bool = true;
    let mut i: usize = 0;
    while i < values.len()
        invariant
            C::scale() > 0,
            i <= values@.len(),
            out@.len() == i,
            forall|k: int|
                0 <= k < i ==> (#[trigger] out@[k]).stored() == clamp_to(
                    nearest_step(values@[k] as int, C::scale() as int),
                    C::lowest(),
                    C::highest(),
                ),
            exact == (forall|k: int|
                0 <= k < i ==> (#[trigger] out@[k]).stored() * 1000 == values@[k] * C::scale()),
        decreases values@.len() - i,
    {
        let value: C = C::from_milli(values[i]);
        let kept: bool = value.holds(values[i]);
        let ghost before = out@;
        out.push(value);
        proof {
            assert forall|k: int| 0 <= k < i implies out@[k] == before[k] by {}
            if exact && kept {
                assert forall|k: int| 0 <= k < i + 1 implies (#[trigger] out@[k]).stored() * 1000
                    == values@[k] * C::scale() by {
                    if k < i {
                        assert(out@[k] == before[k]);
                    }
                }
            } else if !exact {
                let bad = choose|k: int|
                    0 <= k < i && (#[trigger] before[k]).stored() * 1000 != values@[k] * C::scale();
                assert(out@[bad] == before[bad]);
            } else {
                assert(out@[i as int] == value);
            }
        }
        exact = exact && kept;
        i += 1;
    }
    (out, exact)
}

/// Convert milli-valued fields and couplings to the chosen coefficient type.
///
/// Returns converted fields, converted couplings, and the milli vectors that
/// came in when conversion loses precision. Conversion uses
/// [`Coefficient::from_milli`], with its rounding and saturation.
#[must_use]
pub fn convert_milli<C: Coefficient>(h: Vec<i32>, j: Vec<i32>) -> (converted: (
    Vec<C>,
    Vec<C>,
    Option<(Vec<i32>, Vec<i32>)>,
))
    requires
        C::scale() > 0,
    ensures
        converts(h@, converted.0@),
        converts(j@, converted.1@),
        converted.2 is None <==> keeps_all(h@, converted.0@) && keeps_all(j@, converted.1@),
        converted.2 matches Some(milli) ==> milli.0@ == h@ && milli.1@ == j@,
{
    let (converted_h, exact_h): (Vec<C>, bool) = convert_list(h.as_slice());
    let (converted_j, exact_j): (Vec<C>, bool) = convert_list(j.as_slice());
    if exact_h && exact_j {
        (converted_h, converted_j, None)
    } else {
        (converted_h, converted_j, Some((h, j)))
    }
}

/// `value` steps of one `scale`th as whole thousandths.
pub fn integer_milli(value: i64, scale: u32) -> (milli: Result<i32, RejectReason>)
    requires
        scale != 0,
        -0x8000_0000 <= value <= 0x7fff_ffff,
    ensures
        milli == match whole_milli(value as int, scale) {
            Some(m) => Ok(m),
            None => Err::<i32, RejectReason>(RejectReason::Malformed),
        },
{
    let product: i64 = value * 1000;
    let step: i64 = scale as i64;
    // Truncating division has the remainder's zero and the exact quotient in
    // common with Euclidean division.
    if product >= 0 {
        let quotient: i64 = product / step;
        if product % step != 0 || quotient > i32::MAX as i64 {
            return Err(RejectReason::Malformed);
        }
        Ok(quotient as i32)
    } else {
        let magnitude: i64 = -product;
        let quotient: i64 = magnitude / step;
        proof {
            lemma_negated_division(magnitude as int, step as int);
        }
        if magnitude % step != 0 || quotient > 0x8000_0000 {
            return Err(RejectReason::Malformed);
        }
        Ok((-quotient) as i32)
    }
}

proof fn lemma_negated_division(a: int, d: int)
    requires
        a >= 0,
        d > 0,
    ensures
        (-a) % d == 0 <==> a % d == 0,
        a % d == 0 ==> (-a) / d == -(a / d),
{
    let q = a / d;
    let r = a % d;
    lemma_fundamental_div_mod(a, d);
    assert(a == d * q + r && 0 <= r < d);
    if r == 0 {
        assert(-a == d * (-q)) by (nonlinear_arith)
            requires
                a == d * q,
        ;
        lemma_fundamental_div_mod_converse(-a, d, -q, 0);
    } else {
        assert(-a == d * (-q - 1) + (d - r)) by (nonlinear_arith)
            requires
                a == d * q + r,
        ;
        lemma_fundamental_div_mod_converse(-a, d, -q - 1, d - r);
    }
}

/// The number that `bits` holds in `format`, as whole thousandths.
pub fn float_milli(bits: u64, format: Format) -> (milli: Result<i32, RejectReason>)
    ensures
        milli == match float_thousandths(bits, format) {
            Some(m) => Ok(m),
            None => Err::<i32, RejectReason>(RejectReason::Malformed),
        },
{
    match unpack(bits, format) {
        None => Err(RejectReason::Malformed),
        Some(n) => {
            let near: ShiftedNumber = scale(n, 1000);
            if !near.whole {
                return Err(RejectReason::Malformed);
            }
            if n.negative {
                if near.floor > 0x8000_0000 {
                    return Err(RejectReason::Malformed);
                }
                let magnitude: i64 = near.floor as i64;
                Ok((-magnitude) as i32)
            } else {
                if near.floor > 0x7fff_ffff {
                    return Err(RejectReason::Malformed);
                }
                Ok(near.floor as i32)
            }
        },
    }
}

fn width_of(encoding: CoefficientEncoding) -> (width: usize)
    ensures
        width == encoding.width(),
        1 <= width <= 8,
{
    match encoding {
        CoefficientEncoding::Unspecified | CoefficientEncoding::I8 => 1,
        CoefficientEncoding::I16 | CoefficientEncoding::F16 => 2,
        CoefficientEncoding::I32 | CoefficientEncoding::F32 => 4,
        CoefficientEncoding::F64 => 8,
    }
}

/// The coefficient that stands at `at`, in thousandths.
fn stored_milli(encoding: CoefficientEncoding, scale: u32, bytes: &[u8], at: usize) -> (milli:
    Result<i32, RejectReason>)
    requires
        encoding.admits(scale),
        at + encoding.width() <= bytes@.len(),
    ensures
        milli == match element(encoding, scale, bytes@.subrange(at as int, at + encoding.width())) {
            Some(m) => Ok(m),
            None => Err::<i32, RejectReason>(RejectReason::Malformed),
        },
{
    match encoding {
        CoefficientEncoding::F16 => float_milli(read_le(bytes, at, 2), Format::Half),
        CoefficientEncoding::F32 => float_milli(read_le(bytes, at, 4), Format::Single),
        CoefficientEncoding::F64 => float_milli(read_le(bytes, at, 8), Format::Double),
        CoefficientEncoding::I16 => integer_milli(read_signed(bytes, at, 2), scale),
        CoefficientEncoding::I32 => integer_milli(read_signed(bytes, at, 4), scale),
        _ => integer_milli(read_signed(bytes, at, 1), scale),
    }
}

/// Decode packed coefficients to thousandths.
pub fn decode_milli(encoding: CoefficientEncoding, scale: u32, bytes: &[u8]) -> (values: Result<
    Vec<i32>,
    RejectReason,
>)
    requires
        encoding.admits(scale),
    ensures
        match values {
            Ok(v) => elements_ok(encoding, scale, bytes@) && v@ == elements(encoding, scale, bytes@),
            Err(reason) => reason == RejectReason::Malformed && !elements_ok(
                encoding,
                scale,
                bytes@,
            ),
        },
{
    let width: usize = width_of(encoding);
    let len: usize = bytes.len();
    if len % width != 0 {
        return Err(RejectReason::Malformed);
    }
    let count: usize = len / width;
    let mut values: Vec<i32> = Vec::new();
    let mut i: usize = 0;
    let mut at: usize = 0;
    while i < count
        invariant
            encoding.admits(scale),
            width == encoding.width(),
            1 <= width <= 8,
            len == bytes@.len(),
            len % width == 0,
            count == len / width,
            i <= count,
            at == i * width,
            values@.len() == i,
            forall|k: int|
                0 <= k < i ==> #[trigger] element(encoding, scale, chunk(bytes@, width as int, k))
                    == Some(values@[k]),
        decreases count - i,
    {
        proof {
            lemma_chunk_fits(len as int, width as int, i as int);
        }
        match stored_milli(encoding, scale, bytes, at) {
            Ok(milli) => {
                values.push(milli);
            },
            Err(reason) => {
                assert(element(encoding, scale, chunk(bytes@, encoding.width(), i as int)) is None);
                return Err(reason);
            },
        }
        proof {
            assert((i + 1) * width == i * width + width) by (nonlinear_arith);
        }
        at += width;
        i += 1;
    }
    assert(values@ =~= elements(encoding, scale, bytes@));
    Ok(values)
}

proof fn lemma_chunk_fits(len: int, width: int, i: int)
    requires
        width > 0,
        0 <= i < len / width,
        len % width == 0,
    ensures
        0 <= i * width,
        i * width + width <= len,
{
    lemma_fundamental_div_mod(len, width);
    assert(0 <= i * width && i * width + width <= len) by (nonlinear_arith)
        requires
            width > 0,
            0 <= i < len / width,
            len == width * (len / width),
    ;
}

/// Take packed whole numbers as they are, after checking that each is a whole
/// number of thousandths in range.
fn copy_list<C: Coefficient>(encoding: CoefficientEncoding, scale: u32, bytes: &[u8]) -> (values:
    Result<Vec<C>, RejectReason>)
    requires
        encoding.admits(scale),
        C::wire() == Some(encoding),
    ensures
        match values {
            Ok(v) => elements_ok(encoding, scale, bytes@) && copies(bytes@, encoding.width(), v@),
            Err(reason) => reason == RejectReason::Malformed && !elements_ok(
                encoding,
                scale,
                bytes@,
            ),
        },
{
    match decode_milli(encoding, scale, bytes) {
        Err(reason) => Err(reason),
        Ok(checked) => {
            let width: usize = width_of(encoding);
            proof {
                C::wire_holds_its_steps();
            }
            let len: usize = bytes.len();
            let count: usize = len / width;
            let mut values: Vec<C> = Vec::new();
            let mut i: usize = 0;
            let mut at: usize = 0;
            while i < count
                invariant
                    C::wire() == Some(encoding),
                    width == encoding.width(),
                    1 <= width <= 4,
                    len == bytes@.len(),
                    len % width == 0,
                    count == len / width,
                    i <= count,
                    at == i * width,
                    values@.len() == i,
                    forall|k: int|
                        0 <= k < i ==> (#[trigger] values@[k]).stored() == le_signed(
                            chunk(bytes@, width as int, k),
                        ),
                decreases count - i,
            {
                proof {
                    lemma_chunk_fits(len as int, width as int, i as int);
                    C::wire_holds_its_steps();
                }
                let steps: i64 = read_signed(bytes, at, width);
                values.push(C::from_stored(steps as i32));
                proof {
                    assert((i + 1) * width == i * width + width) by (nonlinear_arith);
                }
                at += width;
                i += 1;
            }
            Ok(values)
        },
    }
}

/// Read the coefficients of a problem, whichever encoding it uses.
///
/// A representation that is the wire's own is read as it stands. Any other is
/// converted from thousandths, and the thousandths are kept when one of them
/// was changed.
pub fn decode_problem<C: Coefficient>(problem: &IsingProblem) -> (decoded: Result<
    Decoded<C>,
    RejectReason,
>)
    requires
        C::scale() > 0,
    ensures
        match decoded {
            Err(reason) => reason == RejectReason::Malformed && !decodable(
                problem.encoding,
                problem.scale,
                problem.h@,
                problem.j@,
            ),
            Ok(d) => {
                &&& decodable(problem.encoding, problem.scale, problem.h@, problem.j@)
                &&& if C::wire() == problem.encoding && C::scale() == problem.scale {
                    &&& copies(problem.h@, problem.encoding->0.width(), d.h@)
                    &&& copies(problem.j@, problem.encoding->0.width(), d.j@)
                    &&& d.exact_milli is None
                } else {
                    let h = elements(problem.encoding->0, problem.scale, problem.h@);
                    let j = elements(problem.encoding->0, problem.scale, problem.j@);
                    &&& converts(h, d.h@)
                    &&& converts(j, d.j@)
                    &&& d.exact_milli is None <==> keeps_all(h, d.h@) && keeps_all(j, d.j@)
                    &&& d.exact_milli matches Some(milli) ==> milli.0@ == h && milli.1@ == j
                }
            },
        },
{
    let encoding: CoefficientEncoding = match problem.encoding {
        None => {
            return Err(RejectReason::Malformed);
        },
        Some(e) => e,
    };
    let admitted: bool = match encoding {
        CoefficientEncoding::Unspecified => false,
        CoefficientEncoding::I8 | CoefficientEncoding::I16 | CoefficientEncoding::I32 => {
            problem.scale != 0
        },
        _ => problem.scale == 0,
    };
    if !admitted {
        return Err(RejectReason::Malformed);
    }
    let own: bool = match C::wire_form() {
        None => false,
        Some((form, steps)) => form == encoding && steps == problem.scale,
    };
    if own {
        let h: Vec<C> = match copy_list(encoding, problem.scale, problem.h.as_slice()) {
            Err(reason) => {
                return Err(reason);
            },
            Ok(values) => values,
        };
        let j: Vec<C> = match copy_list(encoding, problem.scale, problem.j.as_slice()) {
            Err(reason) => {
                return Err(reason);
            },
            Ok(values) => values,
        };
        return Ok(Decoded { h, j, exact_milli: None });
    }
    let h: Vec<i32> = match decode_milli(encoding, problem.scale, problem.h.as_slice()) {
        Err(reason) => {
            return Err(reason);
        },
        Ok(values) => values,
    };
    let j: Vec<i32> = match decode_milli(encoding, problem.scale, problem.j.as_slice()) {
        Err(reason) => {
            return Err(reason);
        },
        Ok(values) => values,
    };
    let (h, j, exact_milli): (Vec<C>, Vec<C>, Option<(Vec<i32>, Vec<i32>)>) = convert_milli(h, j);
    Ok(Decoded { h, j, exact_milli })
}

/// A representation that says it is exact keeps every wire coefficient.
pub proof fn law_exact_types_lose_nothing<C: Coefficient>(from: Seq<i32>, to: Seq<C>)
    requires
        C::EXACT,
        converts(from, to),
    ensures
        keeps_all(from, to),
        forall|i: int| 0 <= i < from.len() ==> (#[trigger] to[i]).stored() == from[i],
{
    C::exact_holds_every_milli();
    assert forall|i: int| 0 <= i < from.len() implies (#[trigger] to[i]).stored() == from[i] by {
        let m = from[i] as int;
        assert(nearest_step(m, 1000) == m);
    }
}

/// Reading the wire's own representation as it stands gives the very steps
/// that conversion from thousandths gives.
pub proof fn law_direct_read_agrees_with_conversion<C: Coefficient>(
    encoding: CoefficientEncoding,
    bytes: Seq<u8>,
    direct: Seq<C>,
    converted: Seq<C>,
)
    requires
        C::scale() > 0,
        C::wire() == Some(encoding),
        elements_ok(encoding, C::scale(), bytes),
        copies(bytes, encoding.width(), direct),
        converts(elements(encoding, C::scale(), bytes), converted),
    ensures
        direct.len() == converted.len(),
        forall|i: int|
            0 <= i < direct.len() ==> (#[trigger] direct[i]).stored() == converted[i].stored(),
{
    assert forall|i: int| 0 <= i < direct.len() implies (#[trigger] direct[i]).stored()
        == converted[i].stored() by {
        C::wire_holds_its_steps();
        C::exact_holds_every_milli();
        let piece = chunk(bytes, encoding.width(), i);
        let value = le_signed(piece);
        let s = C::scale() as int;
        assert(element(encoding, C::scale(), piece) is Some);
        let m = (value * 1000) / s;
        lemma_fundamental_div_mod(value * 1000, s);
        assert(converted[i].stored() == clamp_to(nearest_step(m, s), C::lowest(), C::highest()));
        assert(m * s == value * 1000) by (nonlinear_arith)
            requires
                value * 1000 == s * m,
        ;
        assert(nearest_step(m, s) == value);
        let k = encoding.width();
        assert(piece.len() == k) by {
            lemma_chunk_fits(bytes.len() as int, k, i);
        }
        lemma_signed_range(piece);
    }
}

/// A number of one, two or four bytes lies in the range of that width.
proof fn lemma_signed_range(bytes: Seq<u8>)
    requires
        bytes.len() == 1 || bytes.len() == 2 || bytes.len() == 4,
    ensures
        bytes.len() == 1 ==> -0x80 <= le_signed(bytes) <= 0x7f,
        bytes.len() == 2 ==> -0x8000 <= le_signed(bytes) <= 0x7fff,
        bytes.len() == 4 ==> -0x8000_0000 <= le_signed(bytes) <= 0x7fff_ffff,
{
    crate::wire::lemma_le_number_bound(bytes);
    crate::wire::lemma_byte_ranges();
}

/// A whole number of steps is read as the one number of thousandths that equals
/// it, and refused when there is none in 32 bits.
pub proof fn law_whole_steps_are_read_exactly(value: int, scale: u32, m: i32)
    requires
        scale > 0,
    ensures
        whole_milli(value, scale) == Some(m) <==> m * scale == value * 1000,
        whole_milli(value, scale) matches Some(n) ==> n * scale == value * 1000,
{
    let (product, s) = (value * 1000, scale as int);
    lemma_fundamental_div_mod(product, s);
    if m * s == product {
        assert(product == s * m) by (nonlinear_arith)
            requires
                m * s == product,
        ;
        lemma_fundamental_div_mod_converse(product, s, m as int, 0);
    }
    let q = product / s;
    assert(s * q == q * s) by (nonlinear_arith);
}

/// A binary number that is exactly a whole number of thousandths is read as that
/// number, with its sign.
pub proof fn law_exact_thousandths_are_read(bits: u64, format: Format, n: Unpacked, t: nat, k: nat)
    requires
        unpacked(bits, format) == Some(n),
        n.exponent == -k,
        n.mantissa * 1000 == t * pow2(k),
        t <= i32::MAX,
    ensures
        !n.negative ==> float_thousandths(bits, format) == Some(t as i32),
        n.negative ==> float_thousandths(bits, format) == Some((-t) as i32),
{
    lemma_round53_keeps_multiples(t, k);
    lemma_pow2_pos(k);
    let p = (t * pow2(k)) as nat;
    assert(product53(n, 1000) == p);
    vstd::arithmetic::div_mod::lemma_mod_multiples_basic(t as int, pow2(k) as int);
    vstd::arithmetic::div_mod::lemma_div_by_multiple(t as int, pow2(k) as int);
    if k == 0 {
        vstd::arithmetic::power2::lemma2_to64();
        assert(p * 1 == p);
    }
}

/// What a binary number is read as differs from a thousand times that number by
/// no more than a double can tell, and has its sign. An infinity or a NaN is
/// never read.
pub proof fn law_thousandths_are_near(bits: u64, format: Format, t: i32, n: Unpacked, k: nat)
    requires
        float_thousandths(bits, format) == Some(t),
        unpacked(bits, format) == Some(n),
        n.exponent == -k,
    ensures
        n.negative ==> t <= 0,
        !n.negative ==> t >= 0,
        ({
            let size = if t < 0 {
                -t
            } else {
                t as int
            };
            &&& 0x20_0000_0000_0000 * (size * pow2(k) - n.mantissa * 1000) <= n.mantissa * 1000
            &&& 0x20_0000_0000_0000 * (n.mantissa * 1000 - size * pow2(k)) <= n.mantissa * 1000
        }),
{
    let p = (n.mantissa * 1000) as nat;
    law_rounding_is_to_the_nearest(p);
    law_shifts_lose_less_than_a_unit(round53(p), k);
    if k == 0 {
        vstd::arithmetic::power2::lemma2_to64();
    }
}

/// No infinity and no NaN is a coefficient.
pub proof fn law_only_finite_numbers_are_read(bits: u64, format: Format)
    requires
        unpacked(bits, format) is None,
    ensures
        float_thousandths(bits, format) is None,
{
}

/// Coefficient `k` of a list is read from its own bytes: as many as the encoding
/// is wide, behind those of the coefficients before it.
pub proof fn law_every_coefficient_is_read_in_place(
    encoding: CoefficientEncoding,
    scale: u32,
    bytes: Seq<u8>,
    width: int,
    k: int,
)
    requires
        encoding.admits(scale),
        elements_ok(encoding, scale, bytes),
        width == match encoding {
            CoefficientEncoding::I16 | CoefficientEncoding::F16 => 2int,
            CoefficientEncoding::I32 | CoefficientEncoding::F32 => 4,
            CoefficientEncoding::F64 => 8,
            _ => 1,
        },
        0 <= k < elements(encoding, scale, bytes).len(),
    ensures
        width * elements(encoding, scale, bytes).len() == bytes.len(),
        ({
            let own = bytes.subrange(width * k, width * k + width);
            let value = elements(encoding, scale, bytes)[k];
            match encoding {
                CoefficientEncoding::F16 => float_thousandths(
                    le_number(own) as u64,
                    Format::Half,
                ) == Some(value),
                CoefficientEncoding::F32 => float_thousandths(
                    le_number(own) as u64,
                    Format::Single,
                ) == Some(value),
                CoefficientEncoding::F64 => float_thousandths(
                    le_number(own) as u64,
                    Format::Double,
                ) == Some(value),
                _ => value * scale == le_signed(own) * 1000,
            }
        }),
{
    assert(width * k == k * width) by (nonlinear_arith);
    lemma_fundamental_div_mod(bytes.len() as int, width);
    let own = chunk(bytes, width, k);
    assert(element(encoding, scale, own) is Some);
    if encoding.format() is None {
        law_whole_steps_are_read_exactly(
            le_signed(own),
            scale,
            elements(encoding, scale, bytes)[k],
        );
    }
}

/// Whole numbers come with a number of steps to the unit and floats with none.
/// Nothing else is read, and nothing is read half: one coefficient that is not a
/// whole number of thousandths refuses the problem.
pub proof fn law_readable_problems(
    encoding: CoefficientEncoding,
    scale: u32,
    h: Seq<u8>,
    j: Seq<u8>,
)
    requires
        decodable(Some(encoding), scale, h, j),
    ensures
        encoding != CoefficientEncoding::Unspecified,
        (encoding == CoefficientEncoding::I8 || encoding == CoefficientEncoding::I16 || encoding
            == CoefficientEncoding::I32) <==> scale > 0,
        elements_ok(encoding, scale, h),
        elements_ok(encoding, scale, j),
        !decodable(None, scale, h, j),
{
}

/// Every converted coefficient is the nearest step to its own thousandths that
/// the representation holds: within half a step where they lie in its range,
/// away from zero from the middle, and at the nearer end where they do not.
pub proof fn law_every_coefficient_is_converted_by_itself<C: Coefficient>(
    from: Seq<i32>,
    to: Seq<C>,
    i: int,
)
    requires
        C::scale() > 0,
        converts(from, to),
        0 <= i < from.len(),
    ensures
        to.len() == from.len(),
        ({
            let (steps, exact) = (1000 * to[i].stored(), from[i] * C::scale());
            &&& C::lowest() <= to[i].stored() <= C::highest()
            &&& 1000 * C::lowest() <= exact <= 1000 * C::highest() ==> -500 <= steps - exact <= 500
            &&& 1000 * C::lowest() <= exact <= 1000 * C::highest() && steps - exact == 500 ==> exact
                > 0
            &&& 1000 * C::lowest() <= exact <= 1000 * C::highest() && steps - exact == -500
                ==> exact < 0
            &&& exact > 1000 * C::highest() ==> to[i].stored() == C::highest()
            &&& exact < 1000 * C::lowest() ==> to[i].stored() == C::lowest()
        }),
{
    C::exact_holds_every_milli();
    let exact = from[i] * C::scale();
    let near = nearest_step(from[i] as int, C::scale() as int);
    law_conversion_is_to_the_nearest_step(from[i] as int, C::scale() as int);
    assert(to[i].stored() == clamp_to(near, C::lowest(), C::highest()));
}

/// A binary number without binary places is read as a thousand times itself
/// where a double holds the product and 32 bits do.
pub proof fn law_whole_numbers_are_read(bits: u64, format: Format, n: Unpacked, k: nat)
    requires
        unpacked(bits, format) == Some(n),
        n.exponent == k,
        n.mantissa * 1000 < 0x20_0000_0000_0000,
    ensures
        ({
            let exact = n.mantissa * 1000 * pow2(k);
            &&& !n.negative && exact <= i32::MAX ==> float_thousandths(bits, format) == Some(
                exact as i32,
            )
            &&& n.negative && exact <= 0x8000_0000 ==> float_thousandths(bits, format) == Some(
                (-exact) as i32,
            )
            &&& exact > 0x8000_0000 ==> float_thousandths(bits, format) is None
        }),
{
    let p = (n.mantissa * 1000) as nat;
    law_rounding_is_to_the_nearest(p);
    law_shifts_lose_less_than_a_unit(p, k);
}

/// Nothing was changed exactly when every coefficient stands for its own
/// thousandths, and a list in which one was changed says so.
pub proof fn law_exactness_means_every_coefficient<C: Coefficient>(
    from: Seq<i32>,
    to: Seq<C>,
    i: int,
)
    requires
        to.len() == from.len(),
        0 <= i < from.len(),
    ensures
        keeps_all(from, to) ==> to[i].stored() * 1000 == from[i] * C::scale(),
        to[i].stored() * 1000 != from[i] * C::scale() ==> !keeps_all(from, to),
        (forall|k: int|
            0 <= k < from.len() ==> (#[trigger] to[k]).stored() * 1000 == from[k] * C::scale())
            ==> keeps_all(from, to),
{
}

} // verus!
