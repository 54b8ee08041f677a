use quip_solver_core::wire::{
    decode_i32_le, decode_spins_packed, encode_i32_le, encode_spins_packed, energy_from_milli,
};

#[test]
fn coefficients_survive_the_wire() {
    let values = [0, 1, -1, 1000, -1000, i32::MIN, i32::MAX, 0x1234_5678];
    let bytes = encode_i32_le(&values);
    let want: Vec<u8> = values.iter().flat_map(|v| v.to_le_bytes()).collect();
    assert_eq!(bytes, want);
    assert_eq!(decode_i32_le(&bytes), Some(values.to_vec()));
}

#[test]
fn an_incomplete_coefficient_is_refused() {
    for n in 1..8 {
        assert_eq!(decode_i32_le(&vec![0; n]).is_some(), n % 4 == 0);
    }
    assert_eq!(decode_i32_le(&[]), Some(vec![]));
}

#[test]
fn spins_survive_the_wire() {
    for n in 0..40 {
        let spins: Vec<i8> = (0..n).map(|i| if (i * 7 + 3) % 5 < 2 { 1 } else { -1 }).collect();
        let packed = encode_spins_packed(&spins);
        assert_eq!(packed.len(), (n + 7) / 8);
        assert_eq!(decode_spins_packed(&packed, n), Some(spins));
    }
    assert_eq!(encode_spins_packed(&[1, -1, 1, 1, -1, -1, -1, -1, 1]), vec![0b0000_1101, 1]);
}

#[test]
fn padding_and_length_are_checked() {
    assert_eq!(decode_spins_packed(&[0b100], 2), None);
    assert_eq!(decode_spins_packed(&[0b11, 0], 2), None);
    assert_eq!(decode_spins_packed(&[], 2), None);
    assert_eq!(decode_spins_packed(&[0xff], 8), Some(vec![1; 8]));
}

#[test]
fn energy_is_exact_and_skips_what_is_not_there() {
    assert_eq!(energy_from_milli(&[1, -1], &[499, -501], &[1501], &[(0, 1)]), -501);
    assert_eq!(energy_from_milli(&[1], &[5, 7], &[9, 9], &[(0, 1), (0, 0)]), 14);
    assert_eq!(energy_from_milli(&[1, 1], &[], &[], &[(0, 1)]), 0);
    assert_eq!(
        energy_from_milli(&[-1; 3], &[i32::MIN; 3], &[], &[]),
        3 * -i64::from(i32::MIN)
    );
}
