//! The multiplicative evaluation domain: a subgroup of the field of size
//! `n = 2^k` generated by `omega`, stored with its full power table.  The
//! power table doubles as the successor polynomial of the constraint
//! system: entry `i` is `omega^i`.
use vstd::prelude::*;

verus! {

use crate::field::{all_in_field, fpow, in_field, lemma_fpow_bound, mul_f};

/// An evaluation domain of size `n` with generator `omega` and the table of
/// its powers.
pub struct Domain {
    /// The domain size, a power of two.
    pub n: usize,
    /// The generator of the subgroup.
    pub omega: u64,
    /// `pows[i] == omega^i` for `i < n`.
    pub pows: Vec<u64>,
}

/// `n` is a power of two.
pub open spec fn is_pow2(n: nat) -> bool
    decreases n,
{
    if n == 0 {
        false
    } else if n == 1 {
        true
    } else {
        n % 2 == 0 && is_pow2(n / 2)
    }
}

impl Domain {
    /// Well-formedness: the power table is complete, the generator has order
    /// exactly `n` (it closes after `n` steps and its first `n` powers are
    /// pairwise distinct), and the size is a power of two within the field's
    /// two-adic reach.
    pub open spec fn wf(self) -> bool {
        &&& 2 <= self.n <= 256
        &&& is_pow2(self.n as nat)
        &&& in_field(self.omega)
        &&& self.pows@.len() == self.n
        &&& all_in_field(self.pows@)
        &&& forall|i: int| 0 <= i < self.n ==> self.pows@[i] == fpow(self.omega, i as nat)
        &&& fpow(self.omega, self.n as nat) == 1
        &&& forall|i: int, j: int| 0 <= i < j < self.n ==> self.pows@[i] != self.pows@[j]
    }

    /// Build the domain, checking every part of the well-formedness
    /// predicate at run time.  Returns `None` exactly when a check fails.
    pub fn new(n: usize, omega: u64) -> (r: Option<Domain>)
        ensures
            r is Some ==> r->0.wf() && r->0.n == n && r->0.omega == omega,
            (r is None) <==> !(
                2 <= n <= 256 && is_pow2(n as nat) && in_field(omega)
                && fpow(omega, n as nat) == 1
                && (forall|i: int, j: int|
                    #![trigger fpow(omega, i as nat), fpow(omega, j as nat)]
                    0 <= i < j < n ==> fpow(omega, i as nat) != fpow(omega, j as nat))
            ),
    {
        if n < 2 || n > 256 || omega >= crate::field::P {
            return None;
        }
        let mut m = n;
        while m > 1
            invariant m >= 1, is_pow2(n as nat) <==> is_pow2(m as nat),
            decreases m,
        {
            if m % 2 != 0 {
                return None;
            }
            m = m / 2;
        }
        let mut pows: Vec<u64> = Vec::new();
        let mut wp: u64 = 1;
        let mut i: usize = 0;
        while i < n
            invariant
                i <= n, in_field(omega), in_field(wp),
                wp == fpow(omega, i as nat),
                pows@.len() == i,
                forall|t: int| 0 <= t < i ==> pows@[t] == fpow(omega, t as nat)
                    && in_field(#[trigger] pows@[t]),
            decreases n - i,
        {
            pows.push(wp);
            proof {
                lemma_fpow_bound(omega, i as nat);
            }
            wp = mul_f(omega, wp);
            i = i + 1;
        }
        // wp == omega^n now; the subgroup must close.
        if wp != 1 {
            return None;
        }
        // the first n powers must be pairwise distinct.
        let mut a: usize = 0;
        while a < n
            invariant
                a <= n, n == pows@.len(), in_field(omega),
                forall|t: int| 0 <= t < n ==> #[trigger] pows@[t] == fpow(omega, t as nat),
                forall|i2: int, j2: int| 0 <= i2 < j2 < pows@.len() && i2 < a
                    ==> pows@[i2] != pows@[j2],
            decreases n - a,
        {
            let mut b: usize = a + 1;
            while b < n
                invariant
                    a < b <= n, n == pows@.len(), in_field(omega),
                    forall|t: int| 0 <= t < n ==> #[trigger] pows@[t] == fpow(omega, t as nat),
                    forall|j2: int| a < j2 < b ==> pows@[a as int] != pows@[j2],
                decreases n - b,
            {
                if pows[a] == pows[b] {
                    proof {
                        assert(fpow(omega, a as nat) == fpow(omega, b as nat));
                    }
                    return None;
                }
                b = b + 1;
            }
            a = a + 1;
        }
        proof {
            assert forall|i: int, j: int|
                #![trigger fpow(omega, i as nat), fpow(omega, j as nat)]
                0 <= i < j < n implies fpow(omega, i as nat) != fpow(omega, j as nat) by {
                assert(pows@[i] == fpow(omega, i as nat));
                assert(pows@[j] == fpow(omega, j as nat));
            }
        }
        Some(Domain { n, omega, pows })
    }
}

} // verus!
