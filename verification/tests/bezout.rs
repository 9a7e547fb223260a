use braavos_accumulator::bezout::bezout_coefficients;
use braavos_accumulator::AccumulatorError;
use crypto_bigint::U256;

fn u256(v: u64) -> U256 {
    U256::from(v)
}

fn low(x: &U256) -> u128 {
    x.to_words()[0] as u128
}

#[test]
fn coprime_inputs_satisfy_the_identity() {
    let (s, t) = bezout_coefficients(&u256(3), &u256(5), &u256(7)).expect("gcd(3, 5) = 1");
    assert!(low(&s) < 7 && low(&t) < 7);
    assert_eq!((3 * low(&s) + 5 * low(&t)) % 7, 1);
}

#[test]
fn larger_modulus_identity() {
    let (s, t) =
        bezout_coefficients(&u256(240), &u256(47), &u256(1000003)).expect("gcd(240, 47) = 1");
    assert!(low(&s) < 1000003 && low(&t) < 1000003);
    assert_eq!((240 * low(&s) + 47 * low(&t)) % 1000003, 1);
}

#[test]
fn non_coprime_inputs_fail_verification() {
    let r = bezout_coefficients(&u256(6), &u256(9), &u256(7));
    assert_eq!(r.unwrap_err(), AccumulatorError::BezoutVerificationFailed);
}

#[test]
fn zero_second_input_uses_the_first_alone() {
    // gcd(8, 0) = 8 and 8 mod 7 = 1, so coefficients exist.
    let (s, t) = bezout_coefficients(&u256(8), &u256(0), &u256(7)).expect("8 mod 7 = 1");
    assert_eq!((8 * low(&s) + 0 * low(&t)) % 7, 1);
}

#[test]
fn both_inputs_zero_fail() {
    let r = bezout_coefficients(&u256(0), &u256(0), &u256(5));
    assert_eq!(r.unwrap_err(), AccumulatorError::BezoutVerificationFailed);
}
