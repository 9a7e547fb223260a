//! The accumulator engine: trapdoor setup from two safe primes, the
//! element-to-exponent mapper, the square-and-multiply exponentiation
//! engine over the ring mod `n`, and the add / delete / verify /
//! update-witness operations.

use vstd::prelude::*;
use vstd::arithmetic::power::pow;
use vstd::arithmetic::power2::{pow2, lemma_pow2_adds, lemma_pow2_strictly_increases};
use vstd::arithmetic::div_mod::{
    lemma_small_mod, lemma_mul_mod_noop_general, lemma_mul_mod_noop_right,
    lemma_mod_division_less_than_divisor,
};
use crate::arith::{
    lemma_pow_mod_bound,
    is_safe_prime, gcd, pow_mod, is_inverse, lemma_safe_prime_shape,
    lemma_pow_mod_square, lemma_pow_mod_mul_base, lemma_exp_prefix_step, lemma_exp_prefix_empty,
    lemma_exp_prefix_full,
};
use crate::bigint::{
    u256_nat, u512_nat, monty_nat, monty_modulus, u256_from_u64, u512_from_u64, u256_sub,
    u256_add, u512_mul, u256_checked_mul, u256_shr1, pad_u256_to_u512, u512_rem, u256_eq,
    u512_eq, u512_bit, u256_invert_mod, monty_from_u512, monty_mul, monty_retrieve,
    gen_safe_prime, u256_is_prime, u256_is_safe_prime, random_below_u512, random_u256_key,
};
use crate::cache::ElementCache;
use vstd::slice::slice_to_vec;
use crate::AccumulatorError;
use crypto_bigint::{U256, U512};
use crypto_bigint::modular::FixedMontyForm;

verus! {

/// A trapdoor accumulator instance: the public modulus `n`, the secret
/// group order `sk`, the current accumulator value `a` (kept in Montgomery
/// form), a PRF key, and the per-instance element cache.
pub struct BraavosAccumulator {
    sk: U256,
    n: U512,
    a: FixedMontyForm<8>,
    prf_key: U256,
    element_cache: ElementCache,
}

impl BraavosAccumulator {
    /// The public modulus `n = p * q`.
    pub closed spec fn n_val(self) -> nat {
        u512_nat(self.n)
    }

    /// The secret group order `sk = ((p - 1) / 2) * ((q - 1) / 2)`.
    pub closed spec fn sk_val(self) -> nat {
        u256_nat(self.sk)
    }

    /// The current accumulator value, reduced mod `n`.
    pub closed spec fn acc_val(self) -> nat {
        monty_nat(self.a)
    }

    /// The element cache as a mapping from byte strings to exponents.
    pub closed spec fn cache_map(self) -> Map<Seq<u8>, nat> {
        self.element_cache@
    }

    /// Structural soundness of an instance: the modulus is odd and large
    /// enough to host a ring, the group order is a nontrivial 256-bit
    /// value, the stored accumulator value is reduced mod `n`, and the
    /// cache is well formed.
    pub closed spec fn wf(self) -> bool {
        &&& self.n_val() >= 3
        &&& self.n_val() % 2 == 1
        &&& self.sk_val() >= 2
        &&& self.sk_val() < pow2(256)
        &&& monty_modulus(self.a) == self.n_val()
        &&& self.acc_val() < self.n_val()
        &&& self.element_cache.wf()
    }

    /// The numeric facts `wf` carries, exported for modules outside this
    /// one (`wf` itself is closed), so the law lemmas below can be
    /// instantiated with an instance's own views.
    pub proof fn lemma_wf_bounds(self)
        requires
            self.wf(),
        ensures
            self.n_val() >= 3,
            self.n_val() % 2 == 1,
            self.sk_val() >= 2,
            self.sk_val() < pow2(256),
            self.acc_val() < self.n_val(),
    {
    }

    /// Builds an accumulator from two given safe primes: re-derives the
    /// companions `(p - 1) / 2` and `(q - 1) / 2`, independently confirms
    /// their primality and the reconstruction `2 * companion + 1`, then
    /// computes `n = p * q` and `sk`, and draws the initial accumulator
    /// value as the square of a uniformly random ring element.
    pub fn from_primes(p: &U256, q: &U256) -> (r: Result<Self, AccumulatorError>)
        requires
            u256_nat(*p) < pow2(128),
            u256_nat(*q) < pow2(128),
        ensures
            r is Ok <==> is_safe_prime(u256_nat(*p) as int) && is_safe_prime(u256_nat(*q) as int),
            r matches Err(e) ==> e == AccumulatorError::SetupError,
            r matches Ok(acc) ==> ({
                let pv = u256_nat(*p) as int;
                let qv = u256_nat(*q) as int;
                &&& acc.wf()
                &&& acc.n_val() == pv * qv
                &&& acc.n_val() % 2 == 1
                &&& acc.sk_val() == ((pv - 1) / 2) * ((qv - 1) / 2)
                &&& 2 * ((pv - 1) / 2) + 1 == pv
                &&& 2 * ((qv - 1) / 2) + 1 == qv
                &&& acc.cache_map() == Map::<Seq<u8>, nat>::empty()
                &&& exists|ar: nat|
                    ar < acc.n_val() && acc.acc_val() == #[trigger] (ar * ar) % acc.n_val()
            }),
    {
        let ghost pv = u256_nat(*p) as int;
        let ghost qv = u256_nat(*q) as int;
        if !u256_is_safe_prime(p) || !u256_is_safe_prime(q) {
            return Err(AccumulatorError::SetupError);
        }
        proof {
            lemma_safe_prime_shape(pv);
            lemma_safe_prime_shape(qv);
            assert(pow2(128) == 2 * pow2(127) && pow2(127) >= 2) by {
                lemma_pow2_adds(127, 1);
                vstd::arithmetic::power2::lemma2_to64();
                lemma_pow2_strictly_increases(1, 127);
            }
            lemma_pow2_strictly_increases(128, 256);
            lemma_pow2_strictly_increases(256, 512);
        }
        let one = u256_from_u64(1);
        let two = u256_from_u64(2);

        // Re-derive the companion factors p' and q'.
        let p_prime = u256_shr1(&u256_sub(p, &one));
        let q_prime = u256_shr1(&u256_sub(q, &one));

        // Defense against a faulty safe-prime source: confirm the
        // companions' primality independently.
        if !u256_is_prime(&p_prime) || !u256_is_prime(&q_prime) {
            return Err(AccumulatorError::SetupError);
        }
        proof {
            // 2 * p' == p - 1, so the companions stay below 2^127.
            assert(2 * u256_nat(p_prime) == pv - 1);
            assert(2 * u256_nat(q_prime) == qv - 1);
            assert(u256_nat(p_prime) < pow2(127));
            assert(u256_nat(q_prime) < pow2(127));
        }

        // Reconstruction check: 2 * companion + 1 must give the prime back.
        let p_doubled = match u256_checked_mul(&p_prime, &two) {
            Some(v) => v,
            None => return Err(AccumulatorError::SetupError),
        };
        let q_doubled = match u256_checked_mul(&q_prime, &two) {
            Some(v) => v,
            None => return Err(AccumulatorError::SetupError),
        };
        let p_check = u256_add(&p_doubled, &one);
        let q_check = u256_add(&q_doubled, &one);
        if !u256_eq(&p_check, p) || !u256_eq(&q_check, q) {
            return Err(AccumulatorError::SetupError);
        }

        // n = p * q, widened to the double-width integer.
        let p_512 = pad_u256_to_u512(p);
        let q_512 = pad_u256_to_u512(q);
        proof {
            lemma_pow2_adds(128, 128);
            assert(u256_nat(*p) * u256_nat(*q) < pow2(128) * pow2(128)) by (nonlinear_arith)
                requires
                    0 <= u256_nat(*p) < pow2(128),
                    0 <= u256_nat(*q) < pow2(128),
                    pow2(128) > 0,
            ;
        }
        let n = u512_mul(&p_512, &q_512);
        proof {
            assert(pv * qv >= 25) by (nonlinear_arith)
                requires
                    pv >= 5,
                    qv >= 5,
            ;
            lemma_mul_mod_noop_general(pv, qv, 2);
            assert((pv * qv) % 2 == 1);
        }

        // sk = p' * q'.
        proof {
            lemma_pow2_adds(127, 127);
            lemma_pow2_strictly_increases(254, 256);
            assert(u256_nat(p_prime) * u256_nat(q_prime) < pow2(127) * pow2(127))
                by (nonlinear_arith)
                requires
                    0 <= u256_nat(p_prime) < pow2(127),
                    0 <= u256_nat(q_prime) < pow2(127),
                    pow2(127) > 0,
            ;
        }
        let sk = match u256_checked_mul(&p_prime, &q_prime) {
            Some(v) => v,
            None => return Err(AccumulatorError::SetupError),
        };
        proof {
            assert(u256_nat(sk) >= 4) by (nonlinear_arith)
                requires
                    u256_nat(sk) == u256_nat(p_prime) * u256_nat(q_prime),
                    u256_nat(p_prime) >= 2,
                    u256_nat(q_prime) >= 2,
            ;
        }

        // Initial accumulator value: the square of a random ring element.
        let a_rand = random_below_u512(&n);
        let a_monty = monty_from_u512(&a_rand, &n);
        proof {
            lemma_small_mod(u512_nat(a_rand), u512_nat(n));
        }
        let a = monty_mul(&a_monty, &a_monty);
        proof {
            lemma_mod_division_less_than_divisor(
                (u512_nat(a_rand) * u512_nat(a_rand)) as int,
                u512_nat(n) as int,
            );
        }

        // A fresh PRF key for the element mapper.
        let prf_key = random_u256_key();

        let acc = BraavosAccumulator {
            sk,
            n,
            a,
            prf_key,
            element_cache: ElementCache::new(),
        };
        proof {
            let ar = u512_nat(a_rand);
            assert(ar < acc.n_val() && acc.acc_val() == (ar * ar) % acc.n_val());
        }
        Ok(acc)
    }

    /// Trapdoor setup: generates two fresh safe primes of the requested
    /// bit length and builds the accumulator from them.  The bit length is
    /// capped so that the group order fits its 256-bit width.
    pub fn new(prime_bits: u32) -> (r: Result<Self, AccumulatorError>)
        requires
            3 <= prime_bits <= 128,
        ensures
            r is Ok,
            r matches Ok(acc) ==> ({
                &&& acc.wf()
                &&& acc.cache_map() == Map::<Seq<u8>, nat>::empty()
                &&& exists|ar: nat|
                    ar < acc.n_val() && acc.acc_val() == #[trigger] (ar * ar) % acc.n_val()
                &&& exists|pv: int, qv: int|
                    {
                        &&& #[trigger] is_safe_prime(pv)
                        &&& #[trigger] is_safe_prime(qv)
                        &&& pow2((prime_bits - 1) as nat) <= pv < pow2(prime_bits as nat)
                        &&& pow2((prime_bits - 1) as nat) <= qv < pow2(prime_bits as nat)
                        &&& acc.n_val() == pv * qv
                        &&& acc.n_val() % 2 == 1
                        &&& acc.sk_val() == ((pv - 1) / 2) * ((qv - 1) / 2)
                        &&& 2 * ((pv - 1) / 2) + 1 == pv
                        &&& 2 * ((qv - 1) / 2) + 1 == qv
                    }
            }),
    {
        let p = gen_safe_prime(prime_bits);
        let q = gen_safe_prime(prime_bits);
        proof {
            if prime_bits < 128 {
                lemma_pow2_strictly_increases(prime_bits as nat, 128);
            }
        }
        let r = Self::from_primes(&p, &q);
        proof {
            let pv = u256_nat(p) as int;
            let qv = u256_nat(q) as int;
            if r is Ok {
                assert(is_safe_prime(pv));
            }
        }
        r
    }

    /// The modular exponentiation engine: square-and-multiply over the
    /// full 512-bit exponent, most significant bit first.  The running
    /// value is taken out of and back into Montgomery form at every 64-bit
    /// chunk boundary — the engine's periodic reduction, a no-op on the
    /// value it holds.
    fn mont_mod_exp(&self, base: &FixedMontyForm<8>, exponent: &U512) -> (r: FixedMontyForm<8>)
        requires
            self.wf(),
            monty_modulus(*base) == self.n_val(),
            monty_nat(*base) < self.n_val(),
            u512_nat(*exponent) < pow2(512),
        ensures
            monty_modulus(r) == self.n_val(),
            monty_nat(r) == pow_mod(monty_nat(*base), u512_nat(*exponent), self.n_val()),
            monty_nat(r) < self.n_val(),
    {
        let ghost nv = self.n_val();
        let ghost b0 = monty_nat(*base);
        let ghost e = u512_nat(*exponent);
        let one = u512_from_u64(1);
        let mut result = monty_from_u512(&one, &self.n);
        proof {
            lemma_exp_prefix_empty(e, 512);
            vstd::arithmetic::power::lemma_pow0(b0 as int);
            lemma_small_mod(1, nv);
        }
        let mut i: u32 = 512;
        while i > 0
            invariant
                self.wf(),
                nv == self.n_val(),
                monty_modulus(*base) == nv,
                monty_nat(*base) == b0,
                b0 < nv,
                u512_nat(*exponent) == e,
                i <= 512,
                monty_modulus(result) == nv,
                monty_nat(result) < nv,
                monty_nat(result) == pow_mod(b0, e / pow2(i as nat), nv),
            decreases i,
        {
            i = i - 1;
            let ghost v = e / pow2(i as nat + 1);
            proof {
                lemma_exp_prefix_step(e, i as nat + 1);
            }
            // Square step.
            result = monty_mul(&result, &result);
            proof {
                lemma_pow_mod_square(b0, v, nv);
                lemma_pow_mod_bound(b0, 2 * v, nv);
            }
            // Multiply step, when the current bit of the exponent is set.
            if u512_bit(exponent, i) {
                result = monty_mul(&result, base);
                proof {
                    lemma_pow_mod_mul_base(b0, 2 * v, nv);
                    lemma_pow_mod_bound(b0, 2 * v + 1, nv);
                }
            }
            // Periodic reduction at each 64-bit chunk boundary.
            if i % 64 == 0 {
                let t = monty_retrieve(&result);
                let t = u512_rem(&t, &self.n);
                proof {
                    lemma_small_mod(monty_nat(result), nv);
                }
                result = monty_from_u512(&t, &self.n);
            }
        }
        proof {
            lemma_exp_prefix_full(e);
        }
        result
    }

    /// The exponentiation engine's public face: `base^exponent mod n` on
    /// plain 512-bit values.
    pub fn pow_mod_n(&self, base: &U512, exponent: &U512) -> (r: U512)
        requires
            self.wf(),
            u512_nat(*exponent) < pow2(512),
        ensures
            u512_nat(r) == pow_mod(u512_nat(*base) % self.n_val(), u512_nat(*exponent), self.n_val()),
            u512_nat(r) < self.n_val(),
    {
        let base_monty = monty_from_u512(base, &self.n);
        proof {
            lemma_mod_division_less_than_divisor(u512_nat(*base) as int, self.n_val() as int);
        }
        let r_monty = self.mont_mod_exp(&base_monty, exponent);
        monty_retrieve(&r_monty)
    }

    /// The current accumulator value, reduced mod `n`.
    pub fn value(&self) -> (r: U512)
        requires
            self.wf(),
        ensures
            u512_nat(r) == self.acc_val(),
            u512_nat(r) < self.n_val(),
    {
        monty_retrieve(&self.a)
    }

    /// The public modulus `n`.
    pub fn modulus(&self) -> (r: U512)
        requires
            self.wf(),
        ensures
            u512_nat(r) == self.n_val(),
    {
        self.n
    }

    /// The element mapper: looks the byte string up in the cache and, on
    /// a miss, assigns it a fresh 256-bit safe prime.  The assignment is
    /// stable for the instance's lifetime: a hit returns exactly what was
    /// assigned before, and nothing else in the instance changes.
    pub fn get_or_generate_element(&mut self, x: &[u8]) -> (r: U256)
        requires
            old(self).wf(),
        ensures
            final(self).wf(),
            final(self).n_val() == old(self).n_val(),
            final(self).sk_val() == old(self).sk_val(),
            final(self).acc_val() == old(self).acc_val(),
            u256_nat(r) < pow2(256),
            is_safe_prime(u256_nat(r) as int),
            final(self).cache_map() == old(self).cache_map().insert(x@, u256_nat(r)),
            old(self).cache_map().contains_key(x@) ==> final(self).cache_map() == old(self).cache_map() && u256_nat(r) == old(self).cache_map()[x@],
    {
        match self.element_cache.get(x) {
            Some(prime) => {
                proof {
                    assert(old(self).cache_map().insert(x@, u256_nat(prime)) =~= old(self).cache_map());
                }
                prime
            },
            None => {
                let prime = gen_safe_prime(256);
                self.element_cache.insert(slice_to_vec(x), prime);
                prime
            },
        }
    }

    /// Adds a byte-string element: resolves it to its prime exponent
    /// (assigning and caching one on first sight) and returns a
    /// membership witness, the accumulator value raised to the exponent's
    /// inverse mod `sk`.  Fails exactly when that exponent shares a
    /// factor with `sk`.  The stored accumulator value stays untouched.
    pub fn add(&mut self, x: &[u8]) -> (r: Result<U512, AccumulatorError>)
        requires
            old(self).wf(),
        ensures
            final(self).wf(),
            final(self).n_val() == old(self).n_val(),
            final(self).sk_val() == old(self).sk_val(),
            final(self).acc_val() == old(self).acc_val(),
            ({
                let e = final(self).cache_map()[x@];
                &&& final(self).cache_map() == old(self).cache_map().insert(x@, e)
                &&& old(self).cache_map().contains_key(x@) ==> final(self).cache_map() == old(self).cache_map()
                &&& r is Ok <==> gcd(e, old(self).sk_val()) == 1
                &&& r matches Err(err) ==> err == AccumulatorError::NotInvertible
                &&& r matches Ok(w) ==> u512_nat(w) < old(self).n_val() && exists|i: nat|
                    #[trigger] is_inverse(i, e, old(self).sk_val()) && u512_nat(w) == pow_mod(
                        old(self).acc_val(),
                        i,
                        old(self).n_val(),
                    )
            }),
    {
        let elem = self.get_or_generate_element(x);
        self.add_with_exponent(&elem)
    }

    /// The exponent-level half of `add`: computes the witness
    /// `a^(e^-1 mod sk) mod n` for a given exponent, without touching the
    /// cache or the stored accumulator value.
    pub fn add_with_exponent(&self, elem: &U256) -> (r: Result<U512, AccumulatorError>)
        requires
            self.wf(),
        ensures
            r is Ok <==> gcd(u256_nat(*elem), self.sk_val()) == 1,
            r matches Err(err) ==> err == AccumulatorError::NotInvertible,
            r matches Ok(w) ==> u512_nat(w) < self.n_val() && exists|i: nat|
                #[trigger] is_inverse(i, u256_nat(*elem), self.sk_val()) && u512_nat(w) == pow_mod(
                    self.acc_val(),
                    i,
                    self.n_val(),
                ),
    {
        let elem_inv = match u256_invert_mod(elem, &self.sk) {
            Some(v) => v,
            None => return Err(AccumulatorError::NotInvertible),
        };
        let elem_inv_512 = pad_u256_to_u512(&elem_inv);
        proof {
            lemma_pow2_strictly_increases(256, 512);
        }
        let w_monty = self.mont_mod_exp(&self.a, &elem_inv_512);
        let w = monty_retrieve(&w_monty);
        let w = u512_rem(&w, &self.n);
        proof {
            lemma_small_mod(monty_nat(w_monty), self.n_val());
            let i = u256_nat(elem_inv) as nat;
            assert(is_inverse(i, u256_nat(*elem), self.sk_val()) && u512_nat(w) == pow_mod(
                self.acc_val(),
                i,
                self.n_val(),
            ));
        }
        Ok(w)
    }

    /// Deletes a byte-string element: resolves it to its exponent and
    /// overwrites the stored accumulator value with its root
    /// `a^(e^-1 mod sk) mod n`.  Fails, leaving the value untouched,
    /// exactly when the exponent shares a factor with `sk`.
    pub fn delete(&mut self, x: &[u8]) -> (r: Result<(), AccumulatorError>)
        requires
            old(self).wf(),
        ensures
            final(self).wf(),
            final(self).n_val() == old(self).n_val(),
            final(self).sk_val() == old(self).sk_val(),
            ({
                let e = final(self).cache_map()[x@];
                &&& final(self).cache_map() == old(self).cache_map().insert(x@, e)
                &&& old(self).cache_map().contains_key(x@) ==> final(self).cache_map() == old(self).cache_map()
                &&& r is Ok <==> gcd(e, old(self).sk_val()) == 1
                &&& r matches Err(err) ==> err == AccumulatorError::NotInvertible && final(self).acc_val() == old(self).acc_val()
                &&& r is Ok ==> exists|i: nat|
                    #[trigger] is_inverse(i, e, old(self).sk_val()) && final(self).acc_val()
                        == pow_mod(old(self).acc_val(), i, old(self).n_val())
            }),
    {
        let elem = self.get_or_generate_element(x);
        self.delete_with_exponent(&elem)
    }

    /// The exponent-level half of `delete`: replaces the stored
    /// accumulator value with `a^(e^-1 mod sk) mod n`.
    pub fn delete_with_exponent(&mut self, elem: &U256) -> (r: Result<(), AccumulatorError>)
        requires
            old(self).wf(),
        ensures
            final(self).wf(),
            final(self).n_val() == old(self).n_val(),
            final(self).sk_val() == old(self).sk_val(),
            final(self).cache_map() == old(self).cache_map(),
            r is Ok <==> gcd(u256_nat(*elem), old(self).sk_val()) == 1,
            r matches Err(err) ==> err == AccumulatorError::NotInvertible && final(self).acc_val()
                == old(self).acc_val(),
            r is Ok ==> exists|i: nat|
                #[trigger] is_inverse(i, u256_nat(*elem), old(self).sk_val()) && final(self).acc_val() == pow_mod(old(self).acc_val(), i, old(self).n_val()),
    {
        let elem_inv = match u256_invert_mod(elem, &self.sk) {
            Some(v) => v,
            None => return Err(AccumulatorError::NotInvertible),
        };
        let elem_inv_512 = pad_u256_to_u512(&elem_inv);
        proof {
            lemma_pow2_strictly_increases(256, 512);
        }
        let new_a = self.mont_mod_exp(&self.a, &elem_inv_512);
        let t = monty_retrieve(&new_a);
        let t = u512_rem(&t, &self.n);
        proof {
            lemma_small_mod(monty_nat(new_a), self.n_val());
        }
        self.a = monty_from_u512(&t, &self.n);
        proof {
            let i = u256_nat(elem_inv) as nat;
            assert(is_inverse(i, u256_nat(*elem), old(self).sk_val()) && self.acc_val() == pow_mod(
                old(self).acc_val(),
                i,
                old(self).n_val(),
            ));
        }
        Ok(())
    }

    /// Verifies a membership witness for a byte-string element: reduces
    /// the witness mod `n`, raises it to the element's exponent, and
    /// compares with the current accumulator value.  Only the element
    /// cache can change (on first sight of the element); a `false` answer
    /// is a normal outcome, not an error.
    pub fn verify(&mut self, x: &[u8], w: &U512) -> (r: bool)
        requires
            old(self).wf(),
        ensures
            final(self).wf(),
            final(self).n_val() == old(self).n_val(),
            final(self).sk_val() == old(self).sk_val(),
            final(self).acc_val() == old(self).acc_val(),
            ({
                let e = final(self).cache_map()[x@];
                &&& final(self).cache_map() == old(self).cache_map().insert(x@, e)
                &&& old(self).cache_map().contains_key(x@) ==> final(self).cache_map() == old(self).cache_map()
                &&& r == (pow_mod(u512_nat(*w) % old(self).n_val(), e, old(self).n_val()) == old(self).acc_val())
            }),
    {
        let elem = self.get_or_generate_element(x);
        self.verify_with_exponent(&elem, w)
    }

    /// The exponent-level half of `verify`: whether
    /// `(w mod n)^e mod n` equals the current accumulator value.
    pub fn verify_with_exponent(&self, elem: &U256, w: &U512) -> (r: bool)
        requires
            self.wf(),
            u256_nat(*elem) < pow2(256),
        ensures
            r == (pow_mod(u512_nat(*w) % self.n_val(), u256_nat(*elem), self.n_val())
                == self.acc_val()),
    {
        let elem_512 = pad_u256_to_u512(elem);
        proof {
            lemma_pow2_strictly_increases(256, 512);
        }
        let w_reduced = u512_rem(w, &self.n);
        proof {
            lemma_mod_division_less_than_divisor(u512_nat(*w) as int, self.n_val() as int);
            lemma_small_mod(u512_nat(w_reduced), self.n_val());
        }
        let w_monty = monty_from_u512(&w_reduced, &self.n);
        let computed = self.mont_mod_exp(&w_monty, &elem_512);
        let computed_std = monty_retrieve(&computed);
        let computed_red = u512_rem(&computed_std, &self.n);
        let current = monty_retrieve(&self.a);
        let current_red = u512_rem(&current, &self.n);
        proof {
            lemma_small_mod(monty_nat(computed), self.n_val());
            lemma_small_mod(self.acc_val(), self.n_val());
        }
        u512_eq(&computed_red, &current_red)
    }

    /// Updates a witness for `x` after `y` was deleted: resolves both
    /// elements (caching fresh exponents on first sight) and raises the
    /// held witness to the inverse of `y`'s exponent mod `sk` — the
    /// witness `x` would get if computed fresh against the post-deletion
    /// accumulator value.  Fails exactly when `y`'s exponent shares a
    /// factor with `sk`.
    pub fn update_witness_on_deletion(&mut self, x: &[u8], w: &U512, y: &[u8]) -> (r: Result<
        U512,
        AccumulatorError,
    >)
        requires
            old(self).wf(),
        ensures
            final(self).wf(),
            final(self).n_val() == old(self).n_val(),
            final(self).sk_val() == old(self).sk_val(),
            final(self).acc_val() == old(self).acc_val(),
            ({
                let ex = final(self).cache_map()[x@];
                let ey = final(self).cache_map()[y@];
                &&& final(self).cache_map() == old(self).cache_map().insert(x@, ex).insert(y@, ey)
                &&& old(self).cache_map().contains_key(x@) ==> ex == old(self).cache_map()[x@]
                &&& old(self).cache_map().contains_key(y@) ==> ey == old(self).cache_map()[y@]
                &&& old(self).cache_map().contains_key(x@) && old(self).cache_map().contains_key(
                    y@,
                ) ==> final(self).cache_map() == old(self).cache_map()
                &&& r is Ok <==> gcd(ey, old(self).sk_val()) == 1
                &&& r matches Err(err) ==> err == AccumulatorError::NotInvertible
                &&& r matches Ok(w2) ==> u512_nat(w2) < old(self).n_val() && exists|i: nat|
                    #[trigger] is_inverse(i, ey, old(self).sk_val()) && u512_nat(w2) == pow_mod(
                        u512_nat(*w) % old(self).n_val(),
                        i,
                        old(self).n_val(),
                    )
            }),
    {
        let _elem_x = self.get_or_generate_element(x);
        let elem_y = self.get_or_generate_element(y);
        self.update_witness_with_exponent(w, &elem_y)
    }

    /// The exponent-level half of `update_witness_on_deletion`: raises
    /// the held witness to the deleted exponent's inverse mod `sk`.
    pub fn update_witness_with_exponent(&self, w: &U512, deleted_elem: &U256) -> (r: Result<
        U512,
        AccumulatorError,
    >)
        requires
            self.wf(),
        ensures
            r is Ok <==> gcd(u256_nat(*deleted_elem), self.sk_val()) == 1,
            r matches Err(err) ==> err == AccumulatorError::NotInvertible,
            r matches Ok(w2) ==> u512_nat(w2) < self.n_val() && exists|i: nat|
                #[trigger] is_inverse(i, u256_nat(*deleted_elem), self.sk_val()) && u512_nat(w2)
                    == pow_mod(u512_nat(*w) % self.n_val(), i, self.n_val()),
    {
        let y_inv = match u256_invert_mod(deleted_elem, &self.sk) {
            Some(v) => v,
            None => return Err(AccumulatorError::NotInvertible),
        };
        let y_inv_512 = pad_u256_to_u512(&y_inv);
        proof {
            lemma_pow2_strictly_increases(256, 512);
            lemma_mod_division_less_than_divisor(u512_nat(*w) as int, self.n_val() as int);
        }
        let w_monty = monty_from_u512(w, &self.n);
        let res_monty = self.mont_mod_exp(&w_monty, &y_inv_512);
        let res = monty_retrieve(&res_monty);
        let res = u512_rem(&res, &self.n);
        proof {
            lemma_small_mod(monty_nat(res_monty), self.n_val());
            let i = u256_nat(y_inv) as nat;
            assert(is_inverse(i, u256_nat(*deleted_elem), self.sk_val()) && u512_nat(res)
                == pow_mod(u512_nat(*w) % self.n_val(), i, self.n_val()));
        }
        Ok(res)
    }

    /// The modular inverse utility run against this instance's secret
    /// group order: Bezout coefficients `(s, t)` for `a` and `b` mod
    /// `sk`, each in `[0, sk)`.  Not called by the other operations.
    pub fn bezout(&self, a: &U256, b: &U256) -> (r: Result<(U256, U256), AccumulatorError>)
        requires
            self.wf(),
            u256_nat(*a) < pow2(256),
            u256_nat(*b) < pow2(256),
        ensures
            r is Ok <==> gcd(u256_nat(*a), u256_nat(*b)) % self.sk_val() == 1,
            r matches Err(err) ==> err == AccumulatorError::BezoutVerificationFailed,
            r matches Ok(st) ==> u256_nat(st.0) < self.sk_val() && u256_nat(st.1) < self.sk_val()
                && (u256_nat(*a) * u256_nat(st.0) + u256_nat(*b) * u256_nat(st.1)) % self.sk_val()
                == 1,
    {
        crate::bezout::bezout_coefficients(a, b, &self.sk)
    }
}

/// Add/verify round trip.  A witness `w = a^i mod n`, where `i` inverts
/// the element's exponent `e` mod `sk` (exactly what `add` hands out),
/// passes verification against the same accumulator value:
/// `(w mod n)^e mod n == a`.  This holds for every accumulator value
/// whose order divides the group order — `a^sk mod n == 1`, the generic
/// case for the square of a random ring element coprime to `n`; a
/// degenerate value such as `a == 0` escapes it.
pub proof fn lemma_add_verify_roundtrip(n: nat, sk: nat, a: nat, e: nat, i: nat)
    requires
        n > 1,
        sk > 0,
        a < n,
        pow_mod(a, sk, n) == 1,
        is_inverse(i, e, sk),
    ensures
        pow_mod(pow_mod(a, i, n), e, n) == a,
        pow_mod(pow_mod(a, i, n) % n, e, n) == a,
{
    let w = pow_mod(a, i, n);
    lemma_pow_mod_bound(a, i, n);
    lemma_small_mod(w, n);
    vstd::arithmetic::power::lemma_pow_mod_noop(pow(a as int, i), e, n as int);
    vstd::arithmetic::power::lemma_pow_multiplies(a as int, i, e);
    crate::arith::lemma_root_of_unity_exponent(a, sk, i * e, n);
    lemma_small_mod(a, n);
}

/// Delete/update consistency.  If witness `w` verified an element with
/// exponent `ex` against accumulator value `a` — that is,
/// `(w mod n)^ex mod n == a` — then after a deletion replaces `a` by
/// `a^iy mod n`, the updated witness `w^iy mod n` (what
/// `update_witness_on_deletion` hands out) verifies the element against
/// the new value.
pub proof fn lemma_delete_update_consistency(n: nat, a: nat, ex: nat, iy: nat, w: nat)
    requires
        n > 1,
        pow_mod(w % n, ex, n) == a,
    ensures
        pow_mod(pow_mod(w % n, iy, n) % n, ex, n) == pow_mod(a, iy, n),
{
    let u = (w % n) as nat;
    let wu = pow_mod(u, iy, n);
    lemma_pow_mod_bound(u, iy, n);
    lemma_small_mod(wu, n);
    vstd::arithmetic::power::lemma_pow_mod_noop(pow(u as int, iy), ex, n as int);
    vstd::arithmetic::power::lemma_pow_multiplies(u as int, iy, ex);
    vstd::arithmetic::power::lemma_pow_mod_noop(pow(u as int, ex), iy, n as int);
    vstd::arithmetic::power::lemma_pow_multiplies(u as int, ex, iy);
}

/// A multiplicative inverse mod `m` is unique among the canonical
/// representatives: the exponent `delete` inverted and the exponent
/// `update_witness_on_deletion` inverted are therefore the same number.
pub proof fn lemma_inverse_unique(i1: nat, i2: nat, e: nat, m: nat)
    requires
        is_inverse(i1, e, m),
        is_inverse(i2, e, m),
    ensures
        i1 == i2,
{
    let a1 = i1 as int;
    let a2 = i2 as int;
    let ei = e as int;
    let mi = m as int;
    lemma_small_mod(i1, m);
    lemma_small_mod(i2, m);
    assert((a1 * (a2 * ei)) % mi == a1 % mi) by {
        lemma_mul_mod_noop_right(a1, a2 * ei, mi);
        assert((a2 * ei) % mi == 1);
    }
    assert((a2 * (a1 * ei)) % mi == a2 % mi) by {
        lemma_mul_mod_noop_right(a2, a1 * ei, mi);
        assert((a1 * ei) % mi == 1);
    }
    assert(a1 * (a2 * ei) == a2 * (a1 * ei)) by (nonlinear_arith);
}

/// Delete/update consistency, end to end.  `delete(y)` replaces the
/// accumulator value `a` by `a^i mod n` for some inverse `i` of `y`'s
/// exponent mod `sk`, and `update_witness_on_deletion` raises the held
/// witness to some inverse of the same cached exponent; inverses are
/// unique, so if `w` verified `x` before the deletion, the updated
/// witness verifies `x` against the post-deletion value.
pub proof fn lemma_update_witness_verifies_after_delete(
    n: nat,
    sk: nat,
    a: nat,
    ex: nat,
    ey: nat,
    iy_del: nat,
    iy_upd: nat,
    w: nat,
)
    requires
        n > 1,
        pow_mod(w % n, ex, n) == a,
        is_inverse(iy_del, ey, sk),
        is_inverse(iy_upd, ey, sk),
    ensures
        pow_mod(pow_mod(w % n, iy_upd, n) % n, ex, n) == pow_mod(a, iy_del, n),
{
    lemma_inverse_unique(iy_del, iy_upd, ey, sk);
    lemma_delete_update_consistency(n, a, ex, iy_del, w);
}

/// Idempotent mapping under repeats.  `add` never touches the stored
/// accumulator value and the cached exponent is stable, so any two
/// witnesses it hands out for the same element — roots of the same `a`
/// by inverses of the same exponent `e` — verify simultaneously.
pub proof fn lemma_repeated_add_witnesses(n: nat, sk: nat, a: nat, e: nat, i1: nat, i2: nat)
    requires
        n > 1,
        sk > 0,
        a < n,
        pow_mod(a, sk, n) == 1,
        is_inverse(i1, e, sk),
        is_inverse(i2, e, sk),
    ensures
        pow_mod(pow_mod(a, i1, n) % n, e, n) == a,
        pow_mod(pow_mod(a, i2, n) % n, e, n) == a,
{
    lemma_add_verify_roundtrip(n, sk, a, e, i1);
    lemma_add_verify_roundtrip(n, sk, a, e, i2);
}

} // verus!


