//! The verifier challenges of one proof, filled monotonically in transcript
//! order.  Once set, a challenge is never recomputed.
use vstd::prelude::*;

verus! {

use crate::field::in_field;

/// All random-oracle challenges of one proof construction.
#[derive(Clone, Copy)]
pub struct RandomOracles {
    /// First challenge of the grand-product pair.
    pub beta: u64,
    /// Second challenge of the grand-product pair.
    pub gamma: u64,
    /// Lookup-argument counterpart of `beta`.
    pub beta2: u64,
    /// Lookup-argument counterpart of `gamma`.
    pub gamma2: u64,
    /// Raw combiner challenge before folding.
    pub alpha_chal: u64,
    /// The folded soundness-amplification combiner.
    pub alpha: u64,
    /// Raw evaluation-point challenge before folding.
    pub zeta_chal: u64,
    /// The folded evaluation point.
    pub zeta: u64,
    /// Raw first opening challenge before folding.
    pub v_chal: u64,
    /// The folded first opening challenge.
    pub v: u64,
    /// Raw second opening challenge before folding.
    pub u_chal: u64,
    /// The folded second opening challenge.
    pub u: u64,
}

impl RandomOracles {
    /// Every challenge is a canonical field element.
    pub open spec fn wf(self) -> bool {
        &&& in_field(self.beta)
        &&& in_field(self.gamma)
        &&& in_field(self.beta2)
        &&& in_field(self.gamma2)
        &&& in_field(self.alpha_chal)
        &&& in_field(self.alpha)
        &&& in_field(self.zeta_chal)
        &&& in_field(self.zeta)
        &&& in_field(self.v_chal)
        &&& in_field(self.v)
        &&& in_field(self.u_chal)
        &&& in_field(self.u)
    }

    /// The all-zero starting value, before any challenge is derived.
    pub fn zero() -> (r: RandomOracles)
        ensures r.wf(),
            r.beta == 0, r.gamma == 0, r.beta2 == 0, r.gamma2 == 0,
            r.alpha == 0, r.zeta == 0, r.v == 0, r.u == 0,
    {
        RandomOracles {
            beta: 0, gamma: 0, beta2: 0, gamma2: 0,
            alpha_chal: 0, alpha: 0, zeta_chal: 0, zeta: 0,
            v_chal: 0, v: 0, u_chal: 0, u: 0,
        }
    }
}

} // verus!
