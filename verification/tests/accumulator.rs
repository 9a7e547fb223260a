use braavos_accumulator::accumulator::BraavosAccumulator;
use braavos_accumulator::AccumulatorError;
use crypto_bigint::{U256, U512};

fn u256(v: u64) -> U256 {
    U256::from(v)
}

fn u512(v: u64) -> U512 {
    U512::from(v)
}

// 23 = 2 * 11 + 1 and 47 = 2 * 23 + 1 are safe primes, giving
// n = 23 * 47 = 1081 and sk = 11 * 23 = 253.
fn tiny() -> BraavosAccumulator {
    BraavosAccumulator::from_primes(&u256(23), &u256(47)).expect("23 and 47 are safe primes")
}

#[test]
fn setup_from_safe_primes_builds_expected_modulus() {
    let acc = tiny();
    assert_eq!(acc.modulus(), u512(1081));
}

#[test]
fn setup_rejects_prime_with_composite_companion() {
    // 13 is prime but (13 - 1) / 2 = 6 is not.
    let r = BraavosAccumulator::from_primes(&u256(13), &u256(47));
    assert!(matches!(r, Err(AccumulatorError::SetupError)));
}

#[test]
fn setup_rejects_composite_input() {
    let r = BraavosAccumulator::from_primes(&u256(22), &u256(47));
    assert!(matches!(r, Err(AccumulatorError::SetupError)));
}

#[test]
fn setup_with_generated_primes_succeeds() {
    let acc = BraavosAccumulator::new(64).expect("setup with 64-bit safe primes");
    // n is a 128-bit-scale odd modulus: its lowest bit is set.
    let n = acc.modulus();
    assert_eq!(n.to_words()[0] & 1, 1);
}

#[test]
fn pow_mod_n_matches_exact_values() {
    let acc = tiny();
    // 2^10 = 1024 < 1081, and 2^11 = 2048 = 1081 + 967.
    assert_eq!(acc.pow_mod_n(&u512(2), &u512(10)), u512(1024));
    assert_eq!(acc.pow_mod_n(&u512(2), &u512(11)), u512(967));
    // Base is reduced first: 1083 = 2 mod 1081.
    assert_eq!(acc.pow_mod_n(&u512(1083), &u512(10)), u512(1024));
    // Exponent zero gives 1, and zero to any positive power gives 0.
    assert_eq!(acc.pow_mod_n(&u512(5), &u512(0)), u512(1));
    assert_eq!(acc.pow_mod_n(&u512(0), &u512(7)), u512(0));
}

#[test]
fn add_verify_round_trip() {
    let mut acc = tiny();
    let w = acc.add(b"element").expect("exponent invertible mod sk");
    assert!(acc.verify(b"element", &w));
}

#[test]
fn element_mapper_is_deterministic_per_instance() {
    let mut acc = tiny();
    let e1 = acc.get_or_generate_element(b"same input");
    let e2 = acc.get_or_generate_element(b"same input");
    assert_eq!(e1, e2);
    let other = acc.get_or_generate_element(b"another input");
    assert_ne!(e1, other);
    // Exponents are 256-bit safe primes, so in particular odd.
    assert_eq!(e1.to_words()[0] & 1, 1);
    assert_eq!(other.to_words()[0] & 1, 1);
}

#[test]
fn repeated_adds_yield_witnesses_that_all_verify() {
    let mut acc = tiny();
    let before = acc.value();
    let w1 = acc.add(b"repeat").expect("add");
    let w2 = acc.add(b"repeat").expect("add again");
    // add never mutates the accumulator value, so both witnesses hold.
    assert_eq!(acc.value(), before);
    assert_eq!(w1, w2);
    assert!(acc.verify(b"repeat", &w1));
    assert!(acc.verify(b"repeat", &w2));
}

#[test]
fn non_invertible_exponent_is_rejected() {
    let acc = tiny();
    // 11 divides sk = 253, so it has no inverse mod sk.
    let r = acc.add_with_exponent(&u256(11));
    assert_eq!(r.unwrap_err(), AccumulatorError::NotInvertible);
    let r = acc.update_witness_with_exponent(&u512(42), &u256(23));
    assert_eq!(r.unwrap_err(), AccumulatorError::NotInvertible);
    let mut acc = acc;
    let r = acc.delete_with_exponent(&u256(11));
    assert_eq!(r.unwrap_err(), AccumulatorError::NotInvertible);
    // A coprime exponent goes through.
    assert!(acc.add_with_exponent(&u256(3)).is_ok());
}

#[test]
fn delete_and_update_witness_at_exponent_level() {
    let mut acc = tiny();
    let w_x = acc.add_with_exponent(&u256(3)).expect("3 is coprime to 253");
    assert!(acc.verify_with_exponent(&u256(3), &w_x));
    acc.delete_with_exponent(&u256(5)).expect("5 is coprime to 253");
    let w_x2 = acc
        .update_witness_with_exponent(&w_x, &u256(5))
        .expect("update after deleting exponent 5");
    assert!(acc.verify_with_exponent(&u256(3), &w_x2));
}

#[test]
fn scenario_with_64_bit_safe_primes() {
    let mut acc = BraavosAccumulator::new(64).expect("setup with 64-bit safe primes");
    let w1 = acc.add(b"element_x").expect("add element_x");
    assert!(acc.verify(b"element_x", &w1));
    let _w2 = acc.add(b"element_y").expect("add element_y");
    acc.delete(b"element_y").expect("delete element_y");
    let w1p = acc
        .update_witness_on_deletion(b"element_x", &w1, b"element_y")
        .expect("update witness for element_x");
    assert!(acc.verify(b"element_x", &w1p));
    // The stale witness fails against the post-deletion value.
    assert!(!acc.verify(b"element_x", &w1));
}

#[test]
fn witnesses_survive_several_deletions() {
    let mut acc = BraavosAccumulator::new(64).expect("setup");
    let mut w_x = acc.add(b"x").expect("add x");
    let w_z = acc.add(b"z").expect("add z");
    let w_d = acc.add(b"d").expect("add d");
    assert!(acc.verify(b"x", &w_x));
    assert!(acc.verify(b"z", &w_z));
    assert!(acc.verify(b"d", &w_d));

    acc.delete(b"d").expect("delete d");
    w_x = acc.update_witness_on_deletion(b"x", &w_x, b"d").expect("update x");
    let w_z = acc.update_witness_on_deletion(b"z", &w_z, b"d").expect("update z");
    assert!(acc.verify(b"x", &w_x));
    assert!(acc.verify(b"z", &w_z));

    acc.delete(b"z").expect("delete z");
    w_x = acc.update_witness_on_deletion(b"x", &w_x, b"z").expect("update x again");
    assert!(acc.verify(b"x", &w_x));

    // Re-adding a deleted element hands out a fresh valid witness.
    let w_z_new = acc.add(b"z").expect("re-add z");
    assert!(acc.verify(b"z", &w_z_new));
    assert!(acc.verify(b"x", &w_x));
}

#[test]
fn accumulator_bezout_runs_against_group_order() {
    let acc = tiny();
    // gcd(3, 5) = 1, so coefficients exist mod sk = 253.
    let (s, t) = acc.bezout(&u256(3), &u256(5)).expect("coprime inputs");
    let sv = s.to_words()[0] as u128;
    let tv = t.to_words()[0] as u128;
    assert_eq!((3 * sv + 5 * tv) % 253, 1);
    // gcd(11, 253) = 11, and 11 mod 253 is not 1.
    let r = acc.bezout(&u256(11), &u256(253));
    assert_eq!(r.unwrap_err(), AccumulatorError::BezoutVerificationFailed);
}

fn pow_mod_u128(mut b: u128, mut e: u128, m: u128) -> u128 {
    let mut r: u128 = 1 % m;
    b %= m;
    while e > 0 {
        if e & 1 == 1 {
            r = r * b % m;
        }
        b = b * b % m;
        e >>= 1;
    }
    r
}

#[test]
fn witness_matches_independent_computation() {
    let acc = tiny();
    let av = acc.value().to_words()[0] as u128;
    let w = acc.add_with_exponent(&u256(3)).expect("3 is coprime to 253");
    let wv = w.to_words()[0] as u128;
    // The witness is a cube root of the accumulator value mod 1081...
    assert_eq!(pow_mod_u128(wv, 3, 1081), av);
    // ...obtained by raising it to 3^-1 mod 253 = 169 (3 * 169 = 507 = 2 * 253 + 1).
    assert_eq!(wv, pow_mod_u128(av, 169, 1081));
    // The engine agrees with an independent implementation on other inputs.
    let p = acc.pow_mod_n(&u512(7), &u512(252)).to_words()[0] as u128;
    assert_eq!(p, pow_mod_u128(7, 252, 1081));
}
