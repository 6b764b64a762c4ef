//! The Fiat-Shamir transcript driver.  Two sponge instances are used per
//! proof: one absorbs commitments, the other (seeded from the first one's
//! digest) absorbs evaluations.  Every challenge is a pure function of what
//! was absorbed before it, which makes the commit-before-challenge ordering
//! visible in the contracts.  The permutation inside the sponge is a simple
//! algebraic mixing map over the proof field, standing in for the
//! cryptographic sponge that the commitment layer would supply.
use vstd::prelude::*;

verus! {

use crate::field::{fadd, fmul, in_field, lemma_fadd_bound, add_f, mul_f};

/// First round constant of the mixing permutation.
pub const RC1: u64 = 42;

/// Second round constant of the mixing permutation.
pub const RC2: u64 = 97;

/// Third round constant of the mixing permutation.
pub const RC3: u64 = 201;

/// One cubing round: `t -> t^3 + rc`.
pub open spec fn round_s(t: u64, rc: u64) -> u64 {
    fadd(fmul(fmul(t, t), t), rc)
}

/// The full three-round mixing permutation.
pub open spec fn perm_s(t: u64) -> u64 {
    round_s(round_s(round_s(t, RC1), RC2), RC3)
}

/// Absorbing one element: add it to the state, then permute.
pub open spec fn mix_s(state: u64, x: u64) -> u64 {
    perm_s(fadd(state, x))
}

/// Absorbing a sequence of elements in order.
pub open spec fn mix_all_s(state: u64, xs: Seq<u64>) -> u64
    decreases xs.len(),
{
    if xs.len() == 0 {
        state
    } else {
        mix_all_s(mix_s(state, xs[0]), xs.drop_first())
    }
}

/// Folding a raw scalar challenge into a field element through the
/// endomorphism coefficient: an affine map `c -> endo * c + 1`.
pub open spec fn fold_chal_s(c: u64, endo: u64) -> u64 {
    fadd(fmul(endo, c), 1)
}

pub proof fn lemma_perm_bound(t: u64)
    ensures in_field(perm_s(t)), in_field(mix_s(t, t)),
{
    lemma_fadd_bound(t, t);
    lemma_fadd_bound(fmul(fmul(t, t), t), RC1);
    let r1 = round_s(t, RC1);
    lemma_fadd_bound(fmul(fmul(r1, r1), r1), RC2);
    let r2 = round_s(r1, RC2);
    lemma_fadd_bound(fmul(fmul(r2, r2), r2), RC3);
    let s = fadd(t, t);
    lemma_fadd_bound(fmul(fmul(s, s), s), RC1);
    let q1 = round_s(s, RC1);
    lemma_fadd_bound(fmul(fmul(q1, q1), q1), RC2);
    let q2 = round_s(q1, RC2);
    lemma_fadd_bound(fmul(fmul(q2, q2), q2), RC3);
}

/// Absorbing a concatenation is absorbing the first part and then the
/// second: a challenge drawn at any point of the transcript is a function
/// of exactly the prefix absorbed before it, never of what comes later.
pub proof fn lemma_mix_all_append(state: u64, xs: Seq<u64>, ys: Seq<u64>)
    ensures mix_all_s(state, xs + ys) == mix_all_s(mix_all_s(state, xs), ys),
    decreases xs.len(),
{
    if xs.len() == 0 {
        assert(xs + ys =~= ys);
    } else {
        assert((xs + ys).drop_first() =~= xs.drop_first() + ys);
        lemma_mix_all_append(mix_s(state, xs[0]), xs.drop_first(), ys);
    }
}

/// A sponge: the running state of one transcript lane.
pub struct Sponge {
    /// The current state, always a canonical field element.
    pub state: u64,
}

impl Sponge {
    /// The state is a canonical residue.
    pub open spec fn wf(self) -> bool {
        in_field(self.state)
    }

    /// A fresh sponge with zero state.
    pub fn new() -> (r: Sponge)
        ensures r.wf(), r.state == 0,
    {
        Sponge { state: 0 }
    }

    /// Absorb one field element.
    pub fn absorb(&mut self, x: u64)
        requires old(self).wf(), in_field(x),
        ensures final(self).wf(), final(self).state == mix_s(old(self).state, x),
    {
        let t = add_f(self.state, x);
        let r1 = add_f(mul_f(mul_f(t, t), t), RC1);
        let r2 = add_f(mul_f(mul_f(r1, r1), r1), RC2);
        let r3 = add_f(mul_f(mul_f(r2, r2), r2), RC3);
        self.state = r3;
    }

    /// Absorb a vector of field elements in order.
    pub fn absorb_vec(&mut self, xs: &Vec<u64>)
        requires old(self).wf(), crate::field::all_in_field(xs@),
        ensures final(self).wf(), final(self).state == mix_all_s(old(self).state, xs@),
    {
        let mut i: usize = 0;
        proof {
            assert(xs@.subrange(0, xs@.len() as int) =~= xs@);
        }
        while i < xs.len()
            invariant
                i <= xs@.len(), self.wf(), crate::field::all_in_field(xs@),
                mix_all_s(old(self).state, xs@) == mix_all_s(self.state, xs@.subrange(i as int, xs@.len() as int)),
            decreases xs@.len() - i,
        {
            let ghost pre = self.state;
            self.absorb(xs[i]);
            proof {
                let tail = xs@.subrange(i as int, xs@.len() as int);
                assert(tail.drop_first() =~= xs@.subrange(i + 1, xs@.len() as int));
                assert(tail[0] == xs@[i as int]);
            }
            i = i + 1;
        }
        proof {
            assert(xs@.subrange(xs@.len() as int, xs@.len() as int) =~= Seq::<u64>::empty());
        }
    }

    /// Draw a challenge: permute the state and return it.
    pub fn challenge(&mut self) -> (c: u64)
        requires old(self).wf(),
        ensures
            final(self).wf(), final(self).state == perm_s(old(self).state),
            c == perm_s(old(self).state), in_field(c),
    {
        let t = self.state;
        let r1 = add_f(mul_f(mul_f(t, t), t), RC1);
        let r2 = add_f(mul_f(mul_f(r1, r1), r1), RC2);
        let r3 = add_f(mul_f(mul_f(r2, r2), r2), RC3);
        self.state = r3;
        r3
    }

    /// The digest of the sponge state, used to seed the evaluation lane.
    pub fn digest(&self) -> (d: u64)
        requires self.wf(),
        ensures d == self.state, in_field(d),
    {
        self.state
    }
}

/// Fold a raw scalar challenge into a field element.
pub fn fold_chal(c: u64, endo: u64) -> (r: u64)
    requires in_field(c), in_field(endo),
    ensures r == fold_chal_s(c, endo), in_field(r),
{
    let m = mul_f(endo, c);
    add_f(m, 1)
}

} // verus!
