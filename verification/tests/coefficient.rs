//! Coefficient conversion boundaries and declared exactness.
use quip_solver_core::coefficient::{Coefficient, Fixed, Milli, I4};

const INPUTS: [i32; 13] = [
    0,
    1,
    -1,
    499,
    -499,
    500,
    -500,
    501,
    -501,
    i32::MIN,
    i32::MAX,
    1500,
    -1500,
];

#[test]
fn integer_tables() {
    let whole32 = [0, 0, 0, 0, 0, 1, -1, 1, -1, -2_147_484, 2_147_484, 2, -2];
    let whole16 = [0, 0, 0, 0, 0, 1, -1, 1, -1, -32768, 32767, 2, -2];
    let whole8 = [0, 0, 0, 0, 0, 1, -1, 1, -1, -128, 127, 2, -2];
    let whole4 = [0, 0, 0, 0, 0, 1, -1, 1, -1, -8, 7, 2, -2];
    assert_eq!(INPUTS.map(|v| Fixed::<i32, 1>::from_milli(v).0), whole32);
    assert_eq!(INPUTS.map(|v| Fixed::<i16, 1>::from_milli(v).0), whole16);
    assert_eq!(INPUTS.map(|v| Fixed::<i8, 1>::from_milli(v).0), whole8);
    assert_eq!(
        INPUTS.map(|v| Fixed::<I4, 1>::from_milli(v).0.get()),
        whole4
    );
    assert_eq!(INPUTS.map(|v| Milli::from_milli(v).0), INPUTS);
    assert_eq!(Fixed::<i32, 3>::from_milli(500).0, 2);
    assert_eq!(Fixed::<i32, 3>::from_milli(-500).0, -2);
    assert_eq!(Fixed::<i32, { u32::MAX }>::from_milli(i32::MAX).0, i32::MAX);
    assert_eq!(Fixed::<i32, { u32::MAX }>::from_milli(i32::MIN).0, i32::MIN);
}

fn from_unit<C: Coefficient>(unit: f64) -> Option<C> {
    C::from_unit(unit.to_bits())
}

fn check_fixed<C: Coefficient>() {
    for v in [f64::NAN, f64::INFINITY, f64::NEG_INFINITY] {
        assert!(from_unit::<C>(v).is_none());
    }
    assert!(from_unit::<C>(f64::MAX).is_some());
    assert!(from_unit::<C>(-f64::MAX).is_some());
}

#[test]
fn finite_saturation_nonfinite_and_exactness() {
    check_fixed::<Milli>();
    check_fixed::<Fixed<i32, 1>>();
    check_fixed::<Fixed<i16, 1>>();
    check_fixed::<Fixed<i8, 1>>();
    check_fixed::<Fixed<I4, 1>>();
    assert_eq!(from_unit::<Fixed<i8, 1>>(0.5), Some(Fixed(1)));
    assert_eq!(from_unit::<Fixed<i8, 1>>(-0.5), Some(Fixed(-1)));
    assert_eq!(from_unit::<Fixed<i8, 1>>(f64::MAX), Some(Fixed(127)));
    assert_eq!(from_unit::<Fixed<i8, 1>>(-f64::MAX), Some(Fixed(-128)));
    assert_eq!(from_unit::<Fixed<i16, 1>>(f64::MAX), Some(Fixed(i16::MAX)));
    assert_eq!(from_unit::<Fixed<i16, 1>>(-f64::MAX), Some(Fixed(i16::MIN)));
    assert_eq!(from_unit::<Milli>(f64::MAX), Some(Fixed(i32::MAX)));
    assert_eq!(from_unit::<Milli>(-f64::MAX), Some(Fixed(i32::MIN)));
    assert_eq!(
        from_unit::<Fixed<I4, 1>>(f64::MAX).map(|v| v.0.get()),
        Some(7)
    );
    assert_eq!(
        from_unit::<Fixed<I4, 1>>(-f64::MAX).map(|v| v.0.get()),
        Some(-8)
    );
    assert_eq!(from_unit::<Fixed<I4, 1>>(-0.5).map(|v| v.0.get()), Some(-1));
    let flags = [
        Milli::EXACT,
        Fixed::<i32, 1>::EXACT,
        Fixed::<i16, 1000>::EXACT,
        Fixed::<i8, 1>::EXACT,
        Fixed::<I4, 1>::EXACT,
    ];
    assert_eq!(flags, [true, false, false, false, false]);
    assert_eq!(I4::new(-9), None);
    assert_eq!(I4::new(8), None);
    assert_eq!(I4::new(I4::MIN).map(I4::get), Some(-8));
    assert_eq!(I4::new(I4::MAX).map(I4::get), Some(7));
    assert_eq!(size_of::<I4>(), 1);
    assert_eq!(
        (f64::from(Milli::from_milli(-501).0) / 1000.0).to_bits(),
        (-0.501_f64).to_bits()
    );
}

#[test]
fn unit_conversion_is_that_of_double_arithmetic() {
    for v in [
        0.0, -0.0, 0.0004, 0.0005, -0.0005, 0.0015, 1.001, -2.5, 123.4565, 1e-320, 1e300, 2_147_483.647,
        -2_147_483.648, 2_147_483.6475, 0.1, 0.7, 32.7675,
    ] {
        let steps = (v * 1000.0_f64).round();
        assert_eq!(from_unit::<Milli>(v).map(|c| c.0), Some(steps as i32), "{v}");
        assert_eq!(
            from_unit::<Fixed<i16, 1000>>(v).map(|c| c.0),
            Some(steps as i16),
            "{v}"
        );
        assert_eq!(
            from_unit::<Fixed<i8, 3>>(v).map(|c| c.0),
            Some((v * 3.0_f64).round() as i8),
            "{v}"
        );
    }
}

#[test]
fn a_value_knows_which_thousandths_it_holds() {
    assert!(Fixed::<i8, 1>::from_milli(2000).holds(2000));
    assert!(!Fixed::<i8, 1>::from_milli(1999).holds(1999));
    assert!(Fixed::<i32, 3>::from_milli(3000).holds(3000));
    assert!(!Fixed::<i32, 3>::from_milli(1).holds(1));
    assert_eq!(Fixed::<i16, 7>::from_stored(-12).to_stored(), -12);
}

#[test]
fn conversion_keeps_order_and_sign() {
    let mut last = i16::MIN;
    for milli in (-40_000..40_000).step_by(37) {
        let steps = Fixed::<i16, 1>::from_milli(milli).0;
        assert!(last <= steps);
        assert_eq!(Fixed::<i16, 1>::from_milli(-milli).0, -steps);
        assert!((i32::from(steps) * 1000 - milli).abs() <= 500);
        last = steps;
    }
}
