//! The modular inverse utility: an extended-Euclid routine computing,
//! for inputs `a` and `b`, coefficients `(s, t)` with
//! `a * s + b * t == 1 (mod sk)`, both normalized into `[0, sk)`.  It is
//! self-contained — the accumulator operations do not call it — and
//! succeeds exactly when `gcd(a, b) mod sk` is 1.

use vstd::prelude::*;
use vstd::arithmetic::power2::{pow2, lemma_pow2_adds};
use vstd::arithmetic::div_mod::{
    lemma_small_mod, lemma_fundamental_div_mod,
    lemma_mod_division_less_than_divisor, lemma_mul_mod_noop_right, lemma_add_mod_noop,
    lemma_sub_mod_noop, lemma_sub_mod_noop_right, lemma_mod_add_multiples_vanish,
    lemma_div_nonincreasing,
};
use crate::arith::gcd;
use crate::bigint::{
    u256_nat, u512_nat, u256_from_u64, u512_mul, pad_u256_to_u512, u512_rem_to_u256, u512_add,
    u256_sub, u256_eq, u256_div_rem,
};
use crate::AccumulatorError;
use crypto_bigint::U256;

verus! {

/// The product of two 256-bit values fits 512 bits.
proof fn lemma_mul_fits_512(x: nat, y: nat)
    requires
        x < pow2(256),
        y < pow2(256),
    ensures
        x * y < pow2(512),
{
    lemma_pow2_adds(256, 256);
    assert(x * y < pow2(256) * pow2(256)) by (nonlinear_arith)
        requires
            0 <= x < pow2(256),
            0 <= y < pow2(256),
            pow2(256) > 0,
    ;
}

/// The sum of two values below a 256-bit bound fits 512 bits.
proof fn lemma_add_fits_512(x: nat, y: nat)
    requires
        x < pow2(256),
        y < pow2(256),
    ensures
        x + y < pow2(512),
{
    lemma_pow2_adds(256, 256);
    assert(pow2(256) >= 2) by {
        vstd::arithmetic::power2::lemma_pow2_strictly_increases(0, 256);
        vstd::arithmetic::power2::lemma2_to64();
    }
    assert(pow2(256) + pow2(256) <= pow2(256) * pow2(256)) by (nonlinear_arith)
        requires
            pow2(256) >= 2,
    ;
}

/// `(x - q * y) mod m`, for coefficients already reduced mod `m`.
fn sub_mul_mod(x: &U256, q: &U256, y: &U256, m: &U256) -> (r: U256)
    requires
        u256_nat(*m) >= 2,
        u256_nat(*m) < pow2(256),
        u256_nat(*x) < u256_nat(*m),
        u256_nat(*y) < u256_nat(*m),
        u256_nat(*q) < pow2(256),
    ensures
        u256_nat(r) < u256_nat(*m),
        u256_nat(r) as int == (u256_nat(*x) - u256_nat(*q) * u256_nat(*y)) % (u256_nat(*m) as int),
{
    let ghost xi = u256_nat(*x) as int;
    let ghost qi = u256_nat(*q) as int;
    let ghost yi = u256_nat(*y) as int;
    let ghost mi = u256_nat(*m) as int;
    proof {
        lemma_mul_fits_512(u256_nat(*q), u256_nat(*y));
    }
    let qy = u512_mul(&pad_u256_to_u512(q), &pad_u256_to_u512(y));
    let qy_m = u512_rem_to_u256(&qy, m);
    proof {
        lemma_mod_division_less_than_divisor(qi * yi, mi);
    }
    let d = u256_sub(m, &qy_m);
    proof {
        lemma_add_fits_512(u256_nat(*x), u256_nat(d));
        vstd::arithmetic::power2::lemma_pow2_strictly_increases(256, 512);
    }
    let sum = u512_add(&pad_u256_to_u512(x), &pad_u256_to_u512(&d));
    let r = u512_rem_to_u256(&sum, m);
    proof {
        lemma_mod_division_less_than_divisor(xi + (mi - (qi * yi) % mi), mi);
        // x + m - (q*y mod m) is congruent to x - q*y mod m.
        assert((xi + (mi - (qi * yi) % mi)) % mi == (mi + (xi - (qi * yi) % mi)) % mi);
        lemma_mod_add_multiples_vanish(xi - (qi * yi) % mi, mi);
        lemma_sub_mod_noop_right(xi, qi * yi, mi);
    }
    r
}

/// Extended Euclid with coefficients tracked mod `sk`: returns `(s, t)`
/// in `[0, sk)` with `a * s + b * t == 1 (mod sk)` when
/// `gcd(a, b) mod sk` is 1, and reports `BezoutVerificationFailed` —
/// the inputs were not jointly coprime to `sk` — otherwise.
pub fn bezout_coefficients(a: &U256, b: &U256, sk: &U256) -> (r: Result<
    (U256, U256),
    AccumulatorError,
>)
    requires
        u256_nat(*sk) >= 2,
        u256_nat(*sk) < pow2(256),
        u256_nat(*a) < pow2(256),
        u256_nat(*b) < pow2(256),
    ensures
        r is Ok <==> gcd(u256_nat(*a), u256_nat(*b)) % u256_nat(*sk) == 1,
        r matches Err(e) ==> e == AccumulatorError::BezoutVerificationFailed,
        r matches Ok(st) ==> u256_nat(st.0) < u256_nat(*sk) && u256_nat(st.1) < u256_nat(*sk)
            && (u256_nat(*a) * u256_nat(st.0) + u256_nat(*b) * u256_nat(st.1)) % u256_nat(*sk)
            == 1,
{
    let ghost av = u256_nat(*a);
    let ghost bv = u256_nat(*b);
    let ghost m = u256_nat(*sk);
    let zero = u256_from_u64(0);
    let one = u256_from_u64(1);
    let mut r0 = *a;
    let mut r1 = *b;
    let mut s0 = one;
    let mut s1 = zero;
    let mut t0 = zero;
    let mut t1 = one;
    proof {
        lemma_small_mod(1, m);
    }
    while !u256_eq(&r1, &zero)
        invariant
            u256_nat(zero) == 0,
            u256_nat(one) == 1,
            m == u256_nat(*sk),
            2 <= m < pow2(256),
            av == u256_nat(*a),
            bv == u256_nat(*b),
            u256_nat(r0) < pow2(256),
            u256_nat(r1) < pow2(256),
            u256_nat(s0) < m,
            u256_nat(s1) < m,
            u256_nat(t0) < m,
            u256_nat(t1) < m,
            gcd(u256_nat(r0), u256_nat(r1)) == gcd(av, bv),
            (av * u256_nat(s0) + bv * u256_nat(t0)) % m == u256_nat(r0) % m,
            (av * u256_nat(s1) + bv * u256_nat(t1)) % m == u256_nat(r1) % m,
        decreases u256_nat(r1),
    {
        let ghost r0v = u256_nat(r0) as int;
        let ghost r1v = u256_nat(r1) as int;
        let (q, rem) = u256_div_rem(&r0, &r1);
        proof {
            lemma_div_nonincreasing(r0v, r1v);
            lemma_mod_division_less_than_divisor(r0v, r1v);
            lemma_fundamental_div_mod(r0v, r1v);
        }
        let s_new = sub_mul_mod(&s0, &q, &s1, sk);
        let t_new = sub_mul_mod(&t0, &q, &t1, sk);
        proof {
            lemma_bezout_step(
                av as int,
                bv as int,
                m as int,
                u256_nat(s0) as int,
                u256_nat(t0) as int,
                u256_nat(s1) as int,
                u256_nat(t1) as int,
                u256_nat(q) as int,
                r0v,
                r1v,
                u256_nat(s_new) as int,
                u256_nat(t_new) as int,
                u256_nat(rem) as int,
            );
        }
        r0 = r1;
        r1 = rem;
        s0 = s1;
        s1 = s_new;
        t0 = t1;
        t1 = t_new;
    }
    // r0 now holds gcd(a, b); check the Bezout identity mod sk.
    proof {
        lemma_mul_fits_512(av, u256_nat(s0));
        lemma_mul_fits_512(bv, u256_nat(t0));
    }
    let a_s = u512_rem_to_u256(&u512_mul(&pad_u256_to_u512(a), &pad_u256_to_u512(&s0)), sk);
    let b_t = u512_rem_to_u256(&u512_mul(&pad_u256_to_u512(b), &pad_u256_to_u512(&t0)), sk);
    proof {
        lemma_mod_division_less_than_divisor((av * u256_nat(s0)) as int, m as int);
        lemma_mod_division_less_than_divisor((bv * u256_nat(t0)) as int, m as int);
        lemma_add_fits_512(u256_nat(a_s), u256_nat(b_t));
        vstd::arithmetic::power2::lemma_pow2_strictly_increases(256, 512);
    }
    let sum = u512_add(&pad_u256_to_u512(&a_s), &pad_u256_to_u512(&b_t));
    let v = u512_rem_to_u256(&sum, sk);
    proof {
        lemma_add_mod_noop((av * u256_nat(s0)) as int, (bv * u256_nat(t0)) as int, m as int);
    }
    if u256_eq(&v, &one) {
        Ok((s0, t0))
    } else {
        Err(AccumulatorError::BezoutVerificationFailed)
    }
}

/// One step of the coefficient bookkeeping keeps the Bezout congruences:
/// if `a*s0 + b*t0 == r0` and `a*s1 + b*t1 == r1` mod `m`, then the new
/// coefficients `s0 - q*s1` and `t0 - q*t1` satisfy the congruence for
/// the new remainder `r0 - q*r1`.
proof fn lemma_bezout_step(
    av: int,
    bv: int,
    m: int,
    s0: int,
    t0: int,
    s1: int,
    t1: int,
    q: int,
    r0: int,
    r1: int,
    snew: int,
    tnew: int,
    rem: int,
)
    requires
        m > 0,
        (av * s0 + bv * t0) % m == r0 % m,
        (av * s1 + bv * t1) % m == r1 % m,
        snew == (s0 - q * s1) % m,
        tnew == (t0 - q * t1) % m,
        rem == r0 - q * r1,
    ensures
        (av * snew + bv * tnew) % m == rem % m,
{
    let x = av * s0 + bv * t0;
    let y = av * s1 + bv * t1;
    assert((av * snew) % m == (av * (s0 - q * s1)) % m) by {
        lemma_mul_mod_noop_right(av, s0 - q * s1, m);
    }
    assert((bv * tnew) % m == (bv * (t0 - q * t1)) % m) by {
        lemma_mul_mod_noop_right(bv, t0 - q * t1, m);
    }
    assert((av * snew + bv * tnew) % m == (av * (s0 - q * s1) + bv * (t0 - q * t1)) % m) by {
        lemma_add_mod_noop(av * snew, bv * tnew, m);
        lemma_add_mod_noop(av * (s0 - q * s1), bv * (t0 - q * t1), m);
    }
    assert(av * (s0 - q * s1) + bv * (t0 - q * t1) == (av * s0 + bv * t0) - q * (av * s1 + bv
        * t1)) by (nonlinear_arith);
    assert((q * y) % m == (q * r1) % m) by {
        lemma_mul_mod_noop_right(q, y, m);
        lemma_mul_mod_noop_right(q, r1, m);
    }
    assert((x - q * y) % m == (r0 - q * r1) % m) by {
        lemma_sub_mod_noop(x, q * y, m);
        lemma_sub_mod_noop(r0, q * r1, m);
    }
}

} // verus!
