//! Trusted boundary to the `crypto_bigint` / `crypto_primes` engines.
//!
//! The fixed-width integers `U256` and `U512` and the Montgomery-form ring
//! elements are opaque to the verifier; the spec functions below name the
//! number such a value holds, and each wrapper states, over those names,
//! what the one outside call in its body computes.  Everything else in this
//! crate is proved from these contracts.

use vstd::prelude::*;
use vstd::arithmetic::power2::pow2;
use crate::arith::{is_prime, is_safe_prime, gcd, is_inverse};
use crypto_bigint::{U256, U512, NonZero, Odd, RandomMod};
use crypto_bigint::modular::{FixedMontyForm, FixedMontyParams};

verus! {

#[verifier::external_type_specification]
#[verifier::external_body]
pub struct ExUint<const LIMBS: usize>(crypto_bigint::Uint<LIMBS>);

#[verifier::external_type_specification]
#[verifier::external_body]
pub struct ExFixedMontyForm<const LIMBS: usize>(FixedMontyForm<LIMBS>);

/// The number a 256-bit unsigned integer holds.
pub uninterp spec fn u256_nat(x: U256) -> nat;

/// The number a 512-bit unsigned integer holds.
pub uninterp spec fn u512_nat(x: U512) -> nat;

/// The reduced (standard-form) value a Montgomery-form ring element holds.
pub uninterp spec fn monty_nat(x: FixedMontyForm<8>) -> nat;

/// The modulus a Montgomery-form ring element was built against.
pub uninterp spec fn monty_modulus(x: FixedMontyForm<8>) -> nat;

/// Relies on `Uint::from(u64)`: builds the integer with that value.
#[verifier::external_body]
pub(crate) fn u256_from_u64(v: u64) -> (r: U256)
    ensures
        u256_nat(r) == v as nat,
{
    U256::from(v)
}

/// Relies on `Uint::from(u64)`: builds the integer with that value.
#[verifier::external_body]
pub(crate) fn u512_from_u64(v: u64) -> (r: U512)
    ensures
        u512_nat(r) == v as nat,
{
    U512::from(v)
}

/// Relies on `Uint::wrapping_sub`: exact difference when no borrow occurs.
#[verifier::external_body]
pub(crate) fn u256_sub(a: &U256, b: &U256) -> (r: U256)
    requires
        u256_nat(*b) <= u256_nat(*a),
    ensures
        u256_nat(r) == u256_nat(*a) - u256_nat(*b),
{
    a.wrapping_sub(b)
}

/// Relies on `Uint::wrapping_add`: exact sum when it fits the width.
#[verifier::external_body]
pub(crate) fn u256_add(a: &U256, b: &U256) -> (r: U256)
    requires
        u256_nat(*a) + u256_nat(*b) < pow2(256),
    ensures
        u256_nat(r) == u256_nat(*a) + u256_nat(*b),
{
    a.wrapping_add(b)
}

/// Relies on `Uint::wrapping_add`: exact sum when it fits the width.
#[verifier::external_body]
pub(crate) fn u512_add(a: &U512, b: &U512) -> (r: U512)
    requires
        u512_nat(*a) + u512_nat(*b) < pow2(512),
    ensures
        u512_nat(r) == u512_nat(*a) + u512_nat(*b),
{
    a.wrapping_add(b)
}

/// Relies on `Uint::wrapping_mul`: exact product when it fits the width.
#[verifier::external_body]
pub(crate) fn u512_mul(a: &U512, b: &U512) -> (r: U512)
    requires
        u512_nat(*a) * u512_nat(*b) < pow2(512),
    ensures
        u512_nat(r) == u512_nat(*a) * u512_nat(*b),
{
    a.wrapping_mul(b)
}

/// Relies on `Uint::checked_mul`: some exactly when the product fits the
/// width, and then the exact product.
#[verifier::external_body]
pub(crate) fn u256_checked_mul(a: &U256, b: &U256) -> (r: Option<U256>)
    ensures
        r is Some <==> u256_nat(*a) * u256_nat(*b) < pow2(256),
        r matches Some(v) ==> u256_nat(v) == u256_nat(*a) * u256_nat(*b),
{
    a.checked_mul(b).into_option()
}

/// Relies on `Uint::shr_vartime` by one bit: halves the value.
#[verifier::external_body]
pub(crate) fn u256_shr1(x: &U256) -> (r: U256)
    ensures
        u256_nat(r) == u256_nat(*x) / 2,
{
    x.shr_vartime(1)
}

/// Relies on `Uint::resize` widening 256 to 512 bits: keeps the value.
#[verifier::external_body]
pub(crate) fn pad_u256_to_u512(x: &U256) -> (r: U512)
    ensures
        u512_nat(r) == u256_nat(*x),
        u512_nat(r) < pow2(512),
{
    let wide: U512 = x.resize();
    wide
}

/// Relies on `Uint::rem` with a `NonZero` divisor: the Euclidean remainder.
#[verifier::external_body]
pub(crate) fn u512_rem(a: &U512, m: &U512) -> (r: U512)
    requires
        u512_nat(*m) > 0,
    ensures
        u512_nat(r) == u512_nat(*a) % u512_nat(*m),
{
    a.rem(&NonZero::new(*m).unwrap())
}

/// Relies on `Uint::rem` with a narrower `NonZero` divisor: the Euclidean
/// remainder, already in the divisor's width.
#[verifier::external_body]
pub(crate) fn u512_rem_to_u256(a: &U512, m: &U256) -> (r: U256)
    requires
        u256_nat(*m) > 0,
    ensures
        u256_nat(r) == u512_nat(*a) % u256_nat(*m),
{
    a.rem(&NonZero::new(*m).unwrap())
}

/// Relies on `Uint::div_rem` with a `NonZero` divisor: Euclidean quotient
/// and remainder.
#[verifier::external_body]
pub(crate) fn u256_div_rem(a: &U256, b: &U256) -> (r: (U256, U256))
    requires
        u256_nat(*b) > 0,
    ensures
        u256_nat(r.0) == u256_nat(*a) / u256_nat(*b),
        u256_nat(r.1) == u256_nat(*a) % u256_nat(*b),
{
    a.div_rem(&NonZero::new(*b).unwrap())
}

/// Relies on `Uint`'s `PartialEq`: integers compare equal exactly when they
/// hold the same number.
#[verifier::external_body]
pub(crate) fn u256_eq(a: &U256, b: &U256) -> (r: bool)
    ensures
        r == (u256_nat(*a) == u256_nat(*b)),
{
    a == b
}

/// Relies on `Uint`'s `PartialEq`: integers compare equal exactly when they
/// hold the same number.
#[verifier::external_body]
pub(crate) fn u512_eq(a: &U512, b: &U512) -> (r: bool)
    ensures
        r == (u512_nat(*a) == u512_nat(*b)),
{
    a == b
}

/// Relies on `Uint::bit_vartime`: the bit of that index in the value.
#[verifier::external_body]
pub(crate) fn u512_bit(x: &U512, i: u32) -> (r: bool)
    requires
        i < 512,
    ensures
        r == ((u512_nat(*x) / pow2(i as nat)) % 2 == 1),
{
    x.bit_vartime(i)
}

/// Relies on `Uint::invert_mod`: some exactly when the value is coprime to
/// the modulus, and then the canonical multiplicative inverse mod it.
#[verifier::external_body]
pub(crate) fn u256_invert_mod(x: &U256, m: &U256) -> (r: Option<U256>)
    requires
        u256_nat(*m) >= 2,
    ensures
        r is Some <==> gcd(u256_nat(*x), u256_nat(*m)) == 1,
        r matches Some(i) ==> is_inverse(u256_nat(i), u256_nat(*x), u256_nat(*m)),
{
    x.invert_mod(&NonZero::new(*m).unwrap()).into_option()
}

/// Relies on `FixedMontyForm::new` (with `FixedMontyParams::new` and
/// `Odd::new` shaping the odd modulus argument): represents the given
/// integer reduced mod the modulus.
#[verifier::external_body]
pub(crate) fn monty_from_u512(v: &U512, n: &U512) -> (r: FixedMontyForm<8>)
    requires
        u512_nat(*n) % 2 == 1,
        u512_nat(*n) >= 3,
    ensures
        monty_modulus(r) == u512_nat(*n),
        monty_nat(r) == u512_nat(*v) % u512_nat(*n),
{
    let params = FixedMontyParams::new(Odd::new(*n).unwrap());
    FixedMontyForm::new(v, &params)
}

/// Relies on `FixedMontyForm`'s multiplication: the modular product of two
/// reduced ring elements over the same modulus.
#[verifier::external_body]
pub(crate) fn monty_mul(a: &FixedMontyForm<8>, b: &FixedMontyForm<8>) -> (r: FixedMontyForm<8>)
    requires
        monty_modulus(*a) == monty_modulus(*b),
        monty_modulus(*a) > 1,
        monty_nat(*a) < monty_modulus(*a),
        monty_nat(*b) < monty_modulus(*b),
    ensures
        monty_modulus(r) == monty_modulus(*a),
        monty_nat(r) == (monty_nat(*a) * monty_nat(*b)) % monty_modulus(*a),
{
    a * b
}

/// Relies on `FixedMontyForm::retrieve`: the reduced standard-form value.
#[verifier::external_body]
pub(crate) fn monty_retrieve(a: &FixedMontyForm<8>) -> (r: U512)
    ensures
        u512_nat(r) == monty_nat(*a),
{
    a.retrieve()
}

/// Relies on `crypto_primes::random_prime` with the safe-prime flavor: a
/// safe prime with exactly the requested bit length (top bit set), using
/// the thread's secure random source.  Primality rests on the library's
/// Baillie-PSW test, trusted here as the number-theory oracle.
#[verifier::external_body]
pub(crate) fn gen_safe_prime(bits: u32) -> (r: U256)
    requires
        3 <= bits <= 256,
    ensures
        is_safe_prime(u256_nat(r) as int),
        pow2((bits - 1) as nat) <= u256_nat(r) < pow2(bits as nat),
        u256_nat(r) < pow2(256),
{
    let p: U256 = crypto_primes::random_prime(&mut rand::rng(), crypto_primes::Flavor::Safe, bits);
    p
}

/// Relies on `crypto_primes::is_prime` (any flavor): the primality of the
/// value.  The Baillie-PSW test it runs has no known counterexample and
/// is trusted here as the number-theory oracle.
#[verifier::external_body]
pub(crate) fn u256_is_prime(x: &U256) -> (r: bool)
    ensures
        r == is_prime(u256_nat(*x) as int),
{
    crypto_primes::is_prime(crypto_primes::Flavor::Any, x)
}

/// Relies on `crypto_primes::is_prime` with the safe-prime flavor: whether
/// both the value and its companion `(x - 1) / 2` are prime.
#[verifier::external_body]
pub(crate) fn u256_is_safe_prime(x: &U256) -> (r: bool)
    ensures
        r == is_safe_prime(u256_nat(*x) as int),
{
    crypto_primes::is_prime(crypto_primes::Flavor::Safe, x)
}

/// Relies on `Uint::random_mod_vartime`: a value below the modulus, from
/// the thread's secure random source; nothing else holds of any outcome.
#[verifier::external_body]
pub(crate) fn random_below_u512(m: &U512) -> (r: U512)
    requires
        u512_nat(*m) > 0,
    ensures
        u512_nat(r) < u512_nat(*m),
{
    U512::random_mod_vartime(&mut rand::rng(), &NonZero::new(*m).unwrap())
}

/// Relies on `Uint::random_mod_vartime` below `U256::MAX`: a fresh random
/// key from the thread's secure random source; nothing holds of it.
#[verifier::external_body]
pub(crate) fn random_u256_key() -> (r: U256)
{
    U256::random_mod_vartime(&mut rand::rng(), &NonZero::new(U256::MAX).unwrap())
}

} // verus!
