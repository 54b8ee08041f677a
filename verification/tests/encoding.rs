use quip_solver_core::binary64::Format;
use quip_solver_core::coefficient::{Fixed, Milli};
use quip_solver_core::encoding::{
    convert_milli, decode_problem, float_milli, integer_milli, CoefficientEncoding, Decoded,
};
use quip_solver_core::message::{IsingProblem, RejectReason};

fn problem(encoding: Option<CoefficientEncoding>, scale: u32, bytes: Vec<u8>) -> IsingProblem {
    IsingProblem {
        graph: None,
        encoding,
        scale,
        h: bytes.clone(),
        j: bytes,
        num_reads: 0,
        num_sweeps: 0,
        initial_spins: vec![],
        start_beta_milli: 0,
        reversal_s_milli: 0,
        reversal_pause_us: 0,
    }
}

fn decoded(encoding: CoefficientEncoding, scale: u32, bytes: Vec<u8>) -> Result<Decoded<Milli>, RejectReason> {
    decode_problem::<Milli>(&problem(Some(encoding), scale, bytes))
}

fn round_trip(encoding: CoefficientEncoding, scale: u32, bytes: Vec<u8>) {
    let Ok(d) = decoded(encoding, scale, bytes) else {
        panic!("must decode");
    };
    let units = |values: &[Milli]| -> Vec<f64> {
        values.iter().map(|c| f64::from(c.0) / 1000.0).collect()
    };
    assert_eq!(units(&d.h), vec![-1.0, 0.0, 1.0]);
    assert_eq!(units(&d.j), units(&d.h));
    assert!(d.exact_milli.is_none());
}

#[test]
fn round_trip_i8() {
    round_trip(CoefficientEncoding::I8, 1, vec![0xff, 0, 1]);
}

#[test]
fn round_trip_i16() {
    let bytes = [-1000_i16, 0, 1000].into_iter().flat_map(i16::to_le_bytes).collect();
    round_trip(CoefficientEncoding::I16, 1000, bytes);
}

#[test]
fn round_trip_i32() {
    let bytes = [-1000_i32, 0, 1000].into_iter().flat_map(i32::to_le_bytes).collect();
    round_trip(CoefficientEncoding::I32, 1000, bytes);
}

#[test]
fn round_trip_f16() {
    let bytes = [-1.0, 0.0, 1.0]
        .map(half::f16::from_f64)
        .into_iter()
        .flat_map(half::f16::to_le_bytes)
        .collect();
    round_trip(CoefficientEncoding::F16, 0, bytes);
}

#[test]
fn round_trip_f32() {
    let bytes = [-1_f32, 0.0, 1.0].into_iter().flat_map(f32::to_le_bytes).collect();
    round_trip(CoefficientEncoding::F32, 0, bytes);
}

#[test]
fn round_trip_f64() {
    let bytes = [-1_f64, 0.0, 1.0].into_iter().flat_map(f64::to_le_bytes).collect();
    round_trip(CoefficientEncoding::F64, 0, bytes);
}

#[test]
fn direct_read_i8() {
    let decoded = decode_problem::<Fixed<i8, 1>>(&problem(
        Some(CoefficientEncoding::I8),
        1,
        vec![1, 0xFF, 0],
    ));
    let Ok(decoded) = decoded else {
        panic!("must decode");
    };
    assert_eq!(decoded.h, vec![Fixed(1), Fixed(-1), Fixed(0)]);
    assert!(decoded.exact_milli.is_none());
}

fn malformed(encoding: CoefficientEncoding, scale: u32, bytes: Vec<u8>) {
    assert_eq!(
        decoded(encoding, scale, bytes).err(),
        Some(RejectReason::Malformed)
    );
}

#[test]
fn unspecified() {
    malformed(CoefficientEncoding::Unspecified, 1000, vec![]);
}

#[test]
fn an_unknown_encoding_is_malformed() {
    assert_eq!(
        decode_problem::<Milli>(&problem(None, 1000, vec![])).err(),
        Some(RejectReason::Malformed)
    );
}

#[test]
fn zero_integer_scale() {
    malformed(CoefficientEncoding::I8, 0, vec![1]);
}

#[test]
fn nonzero_float_scale() {
    malformed(CoefficientEncoding::F32, 5, 1_f32.to_le_bytes().to_vec());
}

#[test]
fn incomplete_element() {
    malformed(CoefficientEncoding::I16, 1, vec![0; 3]);
}

#[test]
fn fractional_integer_milli() {
    malformed(CoefficientEncoding::I8, 3, vec![1]);
}

#[test]
fn nan() {
    malformed(CoefficientEncoding::F32, 0, f32::NAN.to_le_bytes().to_vec());
}

#[test]
fn fractional_float_milli() {
    malformed(CoefficientEncoding::F64, 0, 0.0005_f64.to_le_bytes().to_vec());
}

#[test]
fn integer_overflow() {
    malformed(CoefficientEncoding::I32, 1, i32::MAX.to_le_bytes().to_vec());
}

#[test]
fn float_overflow() {
    malformed(CoefficientEncoding::F64, 0, 2_147_483.648_f64.to_le_bytes().to_vec());
}

#[test]
fn a_lossy_conversion_keeps_the_thousandths() {
    let (h, j, exact) = convert_milli::<Fixed<i8, 1>>(vec![499, -501], vec![1501]);
    assert_eq!(h, vec![Fixed(0), Fixed(-1)]);
    assert_eq!(j, vec![Fixed(2)]);
    assert_eq!(exact, Some((vec![499, -501], vec![1501])));
    let (_, _, exact) = convert_milli::<Fixed<i8, 1>>(vec![2000, -1000], vec![0]);
    assert_eq!(exact, None);
    let (_, _, exact) = convert_milli::<Milli>(vec![499, i32::MIN], vec![i32::MAX]);
    assert_eq!(exact, None);
}

#[test]
fn a_wire_that_is_not_the_own_one_converts_to_the_same_steps() {
    // Scale 500 against scale 1000: three wire steps are six thousandths.
    let Ok(d) = decode_problem::<Milli>(&problem(
        Some(CoefficientEncoding::I8),
        500,
        vec![3, 0xFD],
    )) else {
        panic!("must decode");
    };
    assert_eq!(d.h, vec![Fixed(6), Fixed(-6)]);
}

#[test]
fn float_thousandths_are_those_of_double_arithmetic() {
    for v in [
        0.0_f64, -0.0, 1.0, -1.0, 0.001, 0.1, 1.001, 2.675, 0.0005, 2_147_483.647, -2_147_483.648,
        2_147_483.648, 1e300, f64::NAN, f64::INFINITY, 5e-324,
    ] {
        let milli = v * 1000.0;
        let fits = milli.is_finite()
            && milli.round() == milli
            && milli >= f64::from(i32::MIN)
            && milli <= f64::from(i32::MAX);
        let want = if fits {
            Ok(milli as i32)
        } else {
            Err(RejectReason::Malformed)
        };
        assert_eq!(float_milli(v.to_bits(), Format::Double), want, "{v}");
    }
    for bits in (0..=u16::MAX).step_by(7) {
        let v = half::f16::from_bits(bits).to_f64() * 1000.0;
        let fits = v.is_finite() && v.round() == v;
        let want = if fits {
            Ok(v as i32)
        } else {
            Err(RejectReason::Malformed)
        };
        assert_eq!(float_milli(u64::from(bits), Format::Half), want, "{bits:#x}");
    }
}

#[test]
fn integer_thousandths_must_be_whole() {
    assert_eq!(integer_milli(-3, 3), Ok(-1000));
    assert_eq!(integer_milli(-1, 3), Err(RejectReason::Malformed));
    assert_eq!(integer_milli(i64::from(i32::MIN), 1000), Ok(i32::MIN));
    assert_eq!(integer_milli(i64::from(i32::MIN), 999), Err(RejectReason::Malformed));
    assert_eq!(integer_milli(1, 4000), Err(RejectReason::Malformed));
    assert_eq!(integer_milli(4, 4000), Ok(1));
}
