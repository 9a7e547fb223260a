//! Mathematical model: primality, greatest common divisors, modular
//! exponentiation, and the lemmas about them that the accumulator's
//! contracts rest on.

use vstd::prelude::*;
use vstd::arithmetic::power::{
    pow, lemma_pow_adds, lemma_pow_multiplies, lemma_pow_mod_noop, lemma_pow1, lemma1_pow,
};
use vstd::arithmetic::power2::{pow2, lemma_pow2_adds, lemma_pow2_pos, lemma_pow2_unfold};
use vstd::arithmetic::div_mod::{
    lemma_div_denominator, lemma_basic_div, lemma_fundamental_div_mod, lemma_small_mod,
    lemma_mul_mod_noop_general, lemma_mul_mod_noop_left, lemma_mod_division_less_than_divisor,
};

verus! {

/// A prime: at least 2, with no divisor strictly between 1 and itself.
pub open spec fn is_prime(p: int) -> bool {
    p >= 2 && forall|d: int| 2 <= d < p ==> #[trigger] (p % d) != 0
}

/// A safe prime: a prime whose companion `(p - 1) / 2` is also prime.
pub open spec fn is_safe_prime(p: int) -> bool {
    is_prime(p) && is_prime((p - 1) / 2)
}

/// Greatest common divisor by Euclid's recurrence.
pub open spec fn gcd(a: nat, b: nat) -> nat
    decreases b,
{
    if b == 0 {
        a
    } else {
        gcd(b, a % b)
    }
}

/// `b` raised to `e`, reduced mod `m`.
pub open spec fn pow_mod(b: nat, e: nat, m: nat) -> nat
    recommends
        m > 0,
{
    (pow(b as int, e) % (m as int)) as nat
}

/// `i` is the canonical multiplicative inverse of `e` mod `m`.
pub open spec fn is_inverse(i: nat, e: nat, m: nat) -> bool {
    i < m && (i * e) % m == 1
}

/// A prime other than 2 is odd.
pub proof fn lemma_prime_is_odd(p: int)
    requires
        is_prime(p),
        p > 2,
    ensures
        p % 2 == 1,
{
    assert(p % 2 != 0);
}

/// A safe prime is at least 5 and odd, and rebuilding it from its
/// companion gives the prime back.
pub proof fn lemma_safe_prime_shape(p: int)
    requires
        is_safe_prime(p),
    ensures
        p >= 5,
        p % 2 == 1,
        2 * ((p - 1) / 2) + 1 == p,
{
    let c = (p - 1) / 2;
    assert(c >= 2);
    assert(p >= 3);
    lemma_prime_is_odd(p);
    lemma_fundamental_div_mod(p - 1, 2);
    assert((p - 1) % 2 == 0);
    assert(p - 1 == 2 * c);
}

/// Squaring a partial power continues the power: the running value of a
/// square-and-multiply loop, squared mod `n`, is the power at twice the
/// exponent.
pub proof fn lemma_pow_mod_square(b: nat, v: nat, n: nat)
    requires
        n > 0,
    ensures
        (pow_mod(b, v, n) * pow_mod(b, v, n)) % n == pow_mod(b, 2 * v, n),
{
    lemma_mul_mod_noop_general(pow(b as int, v), pow(b as int, v), n as int);
    lemma_pow_adds(b as int, v, v);
}

/// Multiplying a partial power by the base continues the power by one.
pub proof fn lemma_pow_mod_mul_base(b: nat, v: nat, n: nat)
    requires
        n > 0,
    ensures
        (pow_mod(b, v, n) * b) % n == pow_mod(b, v + 1, n),
{
    lemma_mul_mod_noop_left(pow(b as int, v), b as int, n as int);
    lemma_pow_adds(b as int, v, 1);
    lemma_pow1(b as int);
}

/// Scanning one more bit of the exponent: the prefix of `e` above bit
/// `i - 1` is twice the prefix above bit `i`, plus that bit.
pub proof fn lemma_exp_prefix_step(e: nat, i: nat)
    requires
        i >= 1,
    ensures
        e / pow2((i - 1) as nat) == 2 * (e / pow2(i)) + ((e / pow2((i - 1) as nat)) % 2),
{
    lemma_pow2_pos((i - 1) as nat);
    lemma_pow2_unfold(i);
    lemma_div_denominator(e as int, pow2((i - 1) as nat) as int, 2);
    assert(pow2((i - 1) as nat) * 2 == pow2(i)) by {
        lemma_pow2_adds((i - 1) as nat, 1);
        lemma_pow2_unfold(1);
        assert(pow2(0) == 1) by {
            lemma_pow2_pos(0);
            vstd::arithmetic::power::lemma_pow0(2);
        }
    }
    let x = e / pow2((i - 1) as nat);
    lemma_fundamental_div_mod(x as int, 2);
}

/// The prefix above the topmost bit of a bounded exponent is zero.
pub proof fn lemma_exp_prefix_empty(e: nat, k: nat)
    requires
        e < pow2(k),
    ensures
        e / pow2(k) == 0,
{
    lemma_pow2_pos(k);
    lemma_basic_div(e as int, pow2(k) as int);
}

/// The prefix above bit zero is the whole exponent.
pub proof fn lemma_exp_prefix_full(e: nat)
    ensures
        e / pow2(0) == e,
{
    assert(pow2(0) == 1) by {
        vstd::arithmetic::power::lemma_pow0(2);
    }
}

/// A reduced power lies below the modulus.
pub proof fn lemma_pow_mod_bound(b: nat, e: nat, m: nat)
    requires
        m > 0,
    ensures
        pow_mod(b, e, m) < m,
{
    lemma_mod_division_less_than_divisor(pow(b as int, e), m as int);
}

/// Powers of a value congruent to 1 stay congruent to 1.
pub proof fn lemma_pow_of_unit(x: int, k: nat, m: int)
    requires
        m > 1,
        x % m == 1,
    ensures
        pow(x, k) % m == 1,
{
    lemma_pow_mod_noop(x, k, m);
    lemma1_pow(k);
    lemma_small_mod(1, m as nat);
}

/// If `a`'s order divides `sk` (that is, `a^sk == 1 mod n`), then raising
/// `a` to any exponent congruent to 1 mod `sk` gives `a` back mod `n`.
pub proof fn lemma_root_of_unity_exponent(a: nat, sk: nat, ie: nat, n: nat)
    requires
        n > 1,
        sk > 0,
        pow_mod(a, sk, n) == 1,
        ie % sk == 1,
    ensures
        pow(a as int, ie) % (n as int) == (a as int) % (n as int),
{
    let q = ie / sk;
    lemma_fundamental_div_mod(ie as int, sk as int);
    assert(ie == sk * q + 1);
    lemma_pow_adds(a as int, (sk * q) as nat, 1);
    lemma_pow1(a as int);
    lemma_pow_multiplies(a as int, sk, q);
    assert(pow(a as int, ie) == pow(pow(a as int, sk), q) * a);
    lemma_mul_mod_noop_left(pow(pow(a as int, sk), q), a as int, n as int);
    assert(pow(a as int, sk) % (n as int) == 1);
    lemma_pow_of_unit(pow(a as int, sk), q, n as int);
    assert(pow(a as int, ie) % (n as int) == (1 * (a as int)) % (n as int));
}

} // verus!
