//! The element cache: an owned mapping from raw byte-string elements to
//! their assigned prime exponents, keys unique, grown lazily and never
//! shared between accumulator instances.

use vstd::prelude::*;
use vstd::arithmetic::power2::pow2;
use crate::arith::is_safe_prime;
use crate::bigint::u256_nat;
use crypto_bigint::U256;

verus! {

/// Compares two byte strings for equality.
pub fn bytes_eq(a: &[u8], b: &[u8]) -> (r: bool)
    ensures
        r == (a@ == b@),
{
    if a.len() != b.len() {
        proof {
            assert(a@ != b@);
        }
        return false;
    }
    let n = a.len();
    let mut i: usize = 0;
    while i < n
        invariant
            n == a@.len(),
            n == b@.len(),
            i <= n,
            forall|j: int| 0 <= j < i ==> a@[j] == b@[j],
        decreases n - i,
    {
        if a[i] != b[i] {
            return false;
        }
        i += 1;
    }
    proof {
        assert(a@ =~= b@);
    }
    true
}

/// The mapping an entry list stands for, later entries shadowing earlier
/// ones (no shadowing ever happens: keys are kept unique).
pub open spec fn entries_map(s: Seq<(Vec<u8>, U256)>) -> Map<Seq<u8>, nat>
    decreases s.len(),
{
    if s.len() == 0 {
        Map::empty()
    } else {
        entries_map(s.drop_last()).insert(s.last().0@, u256_nat(s.last().1))
    }
}

/// A cache from byte-string elements to their prime exponents.
pub struct ElementCache {
    entries: Vec<(Vec<u8>, U256)>,
}

impl ElementCache {
    /// Keys are unique and every stored exponent is a 256-bit safe prime.
    pub closed spec fn wf(self) -> bool {
        &&& forall|i: int, j: int|
            0 <= i < j < self.entries@.len() ==> self.entries@[i].0@ != self.entries@[j].0@
        &&& forall|i: int|
            0 <= i < self.entries@.len() ==> u256_nat(#[trigger] self.entries@[i].1) < pow2(256)
        &&& forall|i: int|
            0 <= i < self.entries@.len() ==> is_safe_prime(
                u256_nat(#[trigger] self.entries@[i].1) as int,
            )
    }

    /// The mapping this cache holds.
    pub closed spec fn view(self) -> Map<Seq<u8>, nat> {
        entries_map(self.entries@)
    }

    proof fn lemma_key_absent(s: Seq<(Vec<u8>, U256)>, k: Seq<u8>)
        requires
            forall|i: int| 0 <= i < s.len() ==> (#[trigger] s[i]).0@ != k,
        ensures
            !entries_map(s).contains_key(k),
        decreases s.len(),
    {
        if s.len() > 0 {
            assert(s.last() == s[s.len() - 1]);
            Self::lemma_key_absent(s.drop_last(), k);
        }
    }

    proof fn lemma_key_at(s: Seq<(Vec<u8>, U256)>, i: int)
        requires
            0 <= i < s.len(),
            forall|p: int, q: int| 0 <= p < q < s.len() ==> (#[trigger] s[p]).0@ != (#[trigger] s[q]).0@,
        ensures
            entries_map(s).contains_key(s[i].0@),
            entries_map(s)[s[i].0@] == u256_nat(s[i].1),
        decreases s.len(),
    {
        if i == s.len() - 1 {
            assert(s.last() == s[i]);
        } else {
            assert(s.last().0@ != s[i].0@);
            assert(s.drop_last()[i] == s[i]);
            Self::lemma_key_at(s.drop_last(), i);
        }
    }

    /// A fresh, empty cache.
    pub fn new() -> (r: Self)
        ensures
            r.wf(),
            r@ == Map::<Seq<u8>, nat>::empty(),
    {
        ElementCache { entries: Vec::new() }
    }

    /// Looks an element up; some exactly when it was inserted before, and
    /// then the exponent it was inserted with.
    pub fn get(&self, x: &[u8]) -> (r: Option<U256>)
        requires
            self.wf(),
        ensures
            r is Some <==> self@.contains_key(x@),
            r matches Some(v) ==> self@[x@] == u256_nat(v) && u256_nat(v) < pow2(256)
                && is_safe_prime(u256_nat(v) as int),
    {
        let n = self.entries.len();
        let mut i: usize = 0;
        while i < n
            invariant
                self.wf(),
                n == self.entries@.len(),
                i <= n,
                forall|j: int| 0 <= j < i ==> (#[trigger] self.entries@[j]).0@ != x@,
            decreases n - i,
        {
            if bytes_eq(self.entries[i].0.as_slice(), x) {
                proof {
                    Self::lemma_key_at(self.entries@, i as int);
                }
                return Some(self.entries[i].1);
            }
            i += 1;
        }
        proof {
            Self::lemma_key_absent(self.entries@, x@);
        }
        None
    }

    /// Records a fresh element's exponent.
    pub fn insert(&mut self, x: Vec<u8>, v: U256)
        requires
            old(self).wf(),
            !old(self)@.contains_key(x@),
            u256_nat(v) < pow2(256),
            is_safe_prime(u256_nat(v) as int),
        ensures
            final(self).wf(),
            final(self)@ == old(self)@.insert(x@, u256_nat(v)),
    {
        proof {
            Self::lemma_key_absent_converse(self.entries@, x@);
        }
        let ghost before = self.entries@;
        self.entries.push((x, v));
        proof {
            assert(self.entries@.drop_last() =~= before);
        }
    }

    proof fn lemma_key_absent_converse(s: Seq<(Vec<u8>, U256)>, k: Seq<u8>)
        requires
            !entries_map(s).contains_key(k),
        ensures
            forall|i: int| 0 <= i < s.len() ==> (#[trigger] s[i]).0@ != k,
        decreases s.len(),
    {
        if s.len() > 0 {
            assert(s.last() == s[s.len() - 1]);
            Self::lemma_key_absent_converse(s.drop_last(), k);
            assert forall|i: int| 0 <= i < s.len() implies (#[trigger] s[i]).0@ != k by {
                if i < s.len() - 1 {
                    assert(s.drop_last()[i] == s[i]);
                }
            }
        }
    }
}

} // verus!
