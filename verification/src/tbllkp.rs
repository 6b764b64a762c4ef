//! The plookup grand-product argument: the sorted multiset union of lookup
//! values and table values, the running-product aggregation polynomial with
//! its boundary conditions, and the lookup contribution to the quotient
//! polynomial.  This is the fully specified instantiation of the reusable
//! grand-product pattern; the copy-permutation argument has the same shape.
use vstd::prelude::*;

verus! {

use crate::circuit::{witness_wf, ConstraintSystem, COLUMNS};
use crate::errors::ProofError;
use crate::field::{
    all_in_field, batch_invert, fadd, finv, fmul, in_field, lemma_fadd_bound, add_f, mul_f,
};
use crate::oracles::RandomOracles;
use crate::poly::{
    gi, interpolate, lin_quot_s, lin_rem_s, lemma_eval_padd, lemma_eval_pmul_lin,
    lemma_peval_bound, padd, padd_s, pmul, pmul_lin, pmul_lin_s, pmul_s,
    pscale, pscale_s, pshift_arg, pshift_arg_s, psub, psub_s, peval, divide_by_linear,
};
use crate::sorting::{sort_values, sorted};

/// Per-proof lookup columns in evaluation form over the base domain.
pub struct LookupEvals {
    /// The grand-product aggregation values; empty until aggregation runs.
    pub l: Vec<u64>,
    /// Witness values selected by the lookup selector, for rows `0 .. n-1`.
    pub lw: Vec<u64>,
    /// First sorted window of the multiset union.
    pub h1: Vec<u64>,
    /// Second sorted window, sharing one boundary value with the first.
    pub h2: Vec<u64>,
}

/// Per-proof lookup columns in coefficient form.
pub struct LookupPolys {
    /// The blinded aggregation polynomial.
    pub l: Vec<u64>,
    /// The selected-values polynomial.
    pub lw: Vec<u64>,
    /// The first sorted-window polynomial.
    pub h1: Vec<u64>,
    /// The second sorted-window polynomial.
    pub h2: Vec<u64>,
}

/// `1 + beta2`, the multiplicative blinding shift of the lookup argument.
pub open spec fn beta1_s(beta2: u64) -> u64 {
    fadd(1, beta2)
}

/// `(1 + beta2) * gamma2`, the shifted additive challenge.
pub open spec fn gb1_s(beta2: u64, gamma2: u64) -> u64 {
    fmul(beta1_s(beta2), gamma2)
}

/// The consecutive-pair term `gamma' + s[j] + beta2 * s[j+1]`.
pub open spec fn pair_term(s: Seq<u64>, beta2: u64, gamma2: u64, j: int) -> u64 {
    fadd(fadd(gb1_s(beta2, gamma2), gi(s, j)), fmul(beta2, gi(s, j + 1)))
}

/// The denominator of recurrence step `j`: the product of the two sorted
/// windows' pair terms.
pub open spec fn lkp_denom(h1: Seq<u64>, h2: Seq<u64>, beta2: u64, gamma2: u64, j: int) -> u64 {
    fmul(pair_term(h1, beta2, gamma2, j), pair_term(h2, beta2, gamma2, j))
}

/// The product of the consecutive-pair terms of `s` over the index range
/// `[lo, hi)`.
pub open spec fn pair_prod(s: Seq<u64>, beta2: u64, gamma2: u64, lo: int, hi: int) -> u64
    decreases hi - lo,
{
    if lo >= hi {
        1
    } else {
        fmul(pair_prod(s, beta2, gamma2, lo, hi - 1), pair_term(s, beta2, gamma2, hi - 1))
    }
}

pub proof fn lemma_pair_prod_bound(s: Seq<u64>, beta2: u64, gamma2: u64, lo: int, hi: int)
    ensures in_field(pair_prod(s, beta2, gamma2, lo, hi)),
    decreases hi - lo,
{
    if lo < hi {
        lemma_pair_prod_bound(s, beta2, gamma2, lo, hi - 1);
        lemma_fadd_bound(pair_prod(s, beta2, gamma2, lo, hi - 1), 0);
        lemma_fadd_bound(
            pair_prod(s, beta2, gamma2, lo, hi - 1),
            pair_term(s, beta2, gamma2, hi - 1),
        );
    }
}

/// A pair product splits at any midpoint.
pub proof fn lemma_pair_prod_split(
    s: Seq<u64>, beta2: u64, gamma2: u64, lo: int, mid: int, hi: int,
)
    requires lo <= mid <= hi,
    ensures pair_prod(s, beta2, gamma2, lo, hi) == fmul(
        pair_prod(s, beta2, gamma2, lo, mid),
        pair_prod(s, beta2, gamma2, mid, hi),
    ),
    decreases hi - mid,
{
    if hi == mid {
        lemma_pair_prod_bound(s, beta2, gamma2, lo, mid);
        crate::field::lemma_fmul_one(pair_prod(s, beta2, gamma2, lo, mid));
    } else {
        lemma_pair_prod_split(s, beta2, gamma2, lo, mid, hi - 1);
        crate::field::lemma_fmul_assoc(
            pair_prod(s, beta2, gamma2, lo, mid),
            pair_prod(s, beta2, gamma2, mid, hi - 1),
            pair_term(s, beta2, gamma2, hi - 1),
        );
    }
}

/// Pair products agree between a sequence and a window of another that
/// carries the same values, index for index.
pub proof fn lemma_pair_prod_offset(
    s: Seq<u64>, s2: Seq<u64>, beta2: u64, gamma2: u64, off: int, lo: int, hi: int,
)
    requires
        0 <= off, 0 <= lo <= hi,
        off + hi < s.len(), hi < s2.len(),
        forall|t: int| lo <= t <= hi ==> s[off + t] == #[trigger] s2[t],
    ensures pair_prod(s, beta2, gamma2, off + lo, off + hi)
        == pair_prod(s2, beta2, gamma2, lo, hi),
    decreases hi - lo,
{
    if lo < hi {
        lemma_pair_prod_offset(s, s2, beta2, gamma2, off, lo, hi - 1);
        assert(gi(s, off + hi - 1) == gi(s2, hi - 1));
        assert(gi(s, off + hi) == gi(s2, hi));
    }
}

/// The two sorted windows share exactly one boundary element so that the
/// consecutive-pair products chain across the split: the product of both
/// windows' pair terms equals the pair-term product of the joined sorted
/// sequence.
pub proof fn lemma_window_chaining(h1: Seq<u64>, h2: Seq<u64>, beta2: u64, gamma2: u64)
    requires
        h1.len() == h2.len(), h1.len() >= 1,
        h2[0] == h1[h1.len() - 1],
    ensures fmul(
        pair_prod(h1, beta2, gamma2, 0, h1.len() - 1),
        pair_prod(h2, beta2, gamma2, 0, h2.len() - 1),
    ) == pair_prod(h1 + h2.drop_first(), beta2, gamma2, 0, 2 * h1.len() - 2),
{
    let n = h1.len() as int;
    let joined = h1 + h2.drop_first();
    assert(joined.len() == 2 * n - 1);
    lemma_pair_prod_split(joined, beta2, gamma2, 0, n - 1, 2 * n - 2);
    assert(forall|t: int| 0 <= t <= n - 1 ==> joined[0 + t] == #[trigger] h1[t]);
    lemma_pair_prod_offset(joined, h1, beta2, gamma2, 0, 0, n - 1);
    assert forall|t: int| 0 <= t <= n - 1 implies joined[n - 1 + t] == #[trigger] h2[t] by {
        if t >= 1 {
            assert(joined[n - 1 + t] == h2.drop_first()[t - 1]);
        }
    }
    lemma_pair_prod_offset(joined, h2, beta2, gamma2, n - 1, 0, n - 1);
}

/// The sorted multiset union of the selected values and the table values.
pub open spec fn sorted_union(lw: Seq<u64>, table: Seq<u64>) -> Seq<u64> {
    crate::sorting::sort_of(lw + table)
}

/// The first sorted window: the first `n` values of the sorted union.
pub open spec fn h1_of(lw: Seq<u64>, table: Seq<u64>, n: int) -> Seq<u64> {
    sorted_union(lw, table).subrange(0, n)
}

/// The second sorted window: the duplicated boundary value followed by the
/// rest of the sorted union.
pub open spec fn h2_of(lw: Seq<u64>, table: Seq<u64>, n: int) -> Seq<u64> {
    seq![sorted_union(lw, table)[n - 1]] + sorted_union(lw, table).subrange(n, 2 * n - 1)
}

/// The aggregation values over the whole domain.
pub open spec fn zvals_of(
    h1: Seq<u64>, h2: Seq<u64>, lw: Seq<u64>, table: Seq<u64>,
    beta2: u64, gamma2: u64, n: int,
) -> Seq<u64> {
    Seq::new(n as nat, |j: int| lkp_z(h1, h2, lw, table, beta2, gamma2, j))
}

/// The blinding polynomial after `k` of the domain's linear factors: the
/// random degree-2 coefficients times `(X - pows[0]) ... (X - pows[k-1])`.
pub open spec fn blind_poly_of(b: (u64, u64, u64), pows: Seq<u64>, k: int) -> Seq<u64>
    decreases k,
{
    if k <= 0 {
        seq![b.0, b.1, b.2]
    } else {
        pmul_lin_s(blind_poly_of(b, pows, k - 1), pows[k - 1])
    }
}

/// The blinded aggregation polynomial that `tbllkp_aggreg` returns: the
/// interpolant of the aggregation values plus the blinding multiple of the
/// vanishing polynomial.
pub open spec fn aggreg_poly_of(
    h1: Seq<u64>, h2: Seq<u64>, lw: Seq<u64>, table: Seq<u64>,
    beta2: u64, gamma2: u64, b: (u64, u64, u64), pows: Seq<u64>, n: int,
) -> Seq<u64> {
    crate::poly::padd_s(
        crate::poly::newton_interp(pows, zvals_of(h1, h2, lw, table, beta2, gamma2, n), n),
        blind_poly_of(b, pows, n),
    )
}

/// The numerator of recurrence step `k`.
pub open spec fn lkp_numer(lw: Seq<u64>, table: Seq<u64>, beta2: u64, gamma2: u64, k: int) -> u64 {
    fmul(fmul(beta1_s(beta2), fadd(gamma2, gi(lw, k))), pair_term(table, beta2, gamma2, k))
}

/// The product of the first `j` step numerators.
pub open spec fn numer_prod(lw: Seq<u64>, table: Seq<u64>, beta2: u64, gamma2: u64, j: int) -> u64
    decreases j,
{
    if j <= 0 {
        1
    } else {
        fmul(numer_prod(lw, table, beta2, gamma2, j - 1), lkp_numer(lw, table, beta2, gamma2, j - 1))
    }
}

/// The product of the first `j` step denominators.
pub open spec fn denom_prod(h1: Seq<u64>, h2: Seq<u64>, beta2: u64, gamma2: u64, j: int) -> u64
    decreases j,
{
    if j <= 0 {
        1
    } else {
        fmul(denom_prod(h1, h2, beta2, gamma2, j - 1), lkp_denom(h1, h2, beta2, gamma2, j - 1))
    }
}

proof fn lemma_denom_prod_nonzero(h1: Seq<u64>, h2: Seq<u64>, beta2: u64, gamma2: u64, j: int)
    requires forall|k: int| 0 <= k < j ==> #[trigger] lkp_denom(h1, h2, beta2, gamma2, k) != 0,
    ensures denom_prod(h1, h2, beta2, gamma2, j) != 0,
        in_field(denom_prod(h1, h2, beta2, gamma2, j)),
    decreases j,
{
    if j <= 0 {
    } else {
        lemma_denom_prod_nonzero(h1, h2, beta2, gamma2, j - 1);
        lemma_fadd_bound(lkp_denom(h1, h2, beta2, gamma2, j - 1), 0);
        crate::field::lemma_no_zero_divisors(
            denom_prod(h1, h2, beta2, gamma2, j - 1),
            lkp_denom(h1, h2, beta2, gamma2, j - 1),
        );
        lemma_fadd_bound(
            denom_prod(h1, h2, beta2, gamma2, j - 1),
            lkp_denom(h1, h2, beta2, gamma2, j - 1),
        );
    }
}

proof fn lemma_z_in_field(
    h1: Seq<u64>, h2: Seq<u64>, lw: Seq<u64>, table: Seq<u64>,
    beta2: u64, gamma2: u64, j: int,
)
    ensures in_field(lkp_z(h1, h2, lw, table, beta2, gamma2, j)),
    decreases j,
{
    if j > 0 {
        lemma_z_in_field(h1, h2, lw, table, beta2, gamma2, j - 1);
        lemma_fadd_bound(finv(lkp_denom(h1, h2, beta2, gamma2, j - 1)), 0);
        lemma_fadd_bound(
            finv(lkp_denom(h1, h2, beta2, gamma2, j - 1)),
            lkp_z(h1, h2, lw, table, beta2, gamma2, j),
        );
    }
}

/// The telescoped form of the aggregation: as long as every step
/// denominator is nonzero, the running product times the denominator
/// product equals the numerator product.
pub proof fn lemma_z_telescopes(
    h1: Seq<u64>, h2: Seq<u64>, lw: Seq<u64>, table: Seq<u64>,
    beta2: u64, gamma2: u64, j: int,
)
    requires forall|k: int| 0 <= k < j ==> #[trigger] lkp_denom(h1, h2, beta2, gamma2, k) != 0,
    ensures fmul(
        lkp_z(h1, h2, lw, table, beta2, gamma2, j),
        denom_prod(h1, h2, beta2, gamma2, j),
    ) == numer_prod(lw, table, beta2, gamma2, j),
    decreases j,
{
    if j <= 0 {
        crate::field::lemma_fmul_one(1);
    } else {
        lemma_z_telescopes(h1, h2, lw, table, beta2, gamma2, j - 1);
        let z = lkp_z(h1, h2, lw, table, beta2, gamma2, j - 1);
        let d = lkp_denom(h1, h2, beta2, gamma2, j - 1);
        let dp = denom_prod(h1, h2, beta2, gamma2, j - 1);
        let nm = lkp_numer(lw, table, beta2, gamma2, j - 1);
        let np = numer_prod(lw, table, beta2, gamma2, j - 1);
        let di = finv(d);
        lemma_z_in_field(h1, h2, lw, table, beta2, gamma2, j - 1);
        lemma_fadd_bound(d, 0);
        lemma_fadd_bound(dp, 0);
        lemma_fadd_bound(nm, 0);
        lemma_fadd_bound(np, 0);
        crate::field::lemma_finv(d);
        // step value: z_j = di * (z * numer), after regrouping
        let b1 = beta1_s(beta2);
        let g1 = fadd(gamma2, gi(lw, j - 1));
        let tt = pair_term(table, beta2, gamma2, j - 1);
        assert(fmul(fmul(fmul(z, b1), g1), tt) == fmul(z, nm)) by {
            crate::field::lemma_fmul_assoc(z, b1, g1);
            crate::field::lemma_fmul_assoc(z, fmul(b1, g1), tt);
            crate::field::lemma_fmul_assoc(b1, g1, tt);
            crate::field::lemma_fmul_assoc(fmul(b1, g1), tt, 1);
        }
        let zj = lkp_z(h1, h2, lw, table, beta2, gamma2, j);
        assert(zj == fmul(di, fmul(z, nm)));
        // z_j * (dp * d) == (di * d) * ((z * dp) * nm) == np * nm
        assert(fmul(zj, fmul(dp, d)) == fmul(fmul(di, d), fmul(fmul(z, dp), nm))) by {
            crate::field::lemma_fmul_assoc(di, fmul(z, nm), fmul(dp, d));
            crate::field::lemma_fmul_assoc(fmul(z, nm), dp, d);
            crate::field::lemma_fmul_assoc(z, nm, dp);
            crate::field::lemma_fmul_comm(nm, dp);
            crate::field::lemma_fmul_assoc(z, dp, nm);
            crate::field::lemma_fmul_assoc(fmul(z, dp), nm, d);
            crate::field::lemma_fmul_comm(nm, d);
            crate::field::lemma_fmul_assoc(fmul(z, dp), d, nm);
            crate::field::lemma_fmul_assoc(di, fmul(fmul(z, dp), d), nm);
            crate::field::lemma_fmul_assoc(di, fmul(z, dp), d);
            crate::field::lemma_fmul_comm(fmul(z, dp), d);
            crate::field::lemma_fmul_assoc(di, d, fmul(z, dp));
            crate::field::lemma_fmul_assoc(fmul(di, d), fmul(z, dp), nm);
        }
        crate::field::lemma_fmul_comm(d, di);
        crate::field::lemma_fmul_one(fmul(fmul(z, dp), nm));
        lemma_fadd_bound(fmul(z, dp), nm);
    }
}

/// Grand-product closure, characterized: with every step denominator
/// nonzero, the terminal condition `z[j] == 1` holds exactly when the
/// numerator product equals the denominator product.
pub proof fn lemma_closure_iff_products(
    h1: Seq<u64>, h2: Seq<u64>, lw: Seq<u64>, table: Seq<u64>,
    beta2: u64, gamma2: u64, j: int,
)
    requires forall|k: int| 0 <= k < j ==> #[trigger] lkp_denom(h1, h2, beta2, gamma2, k) != 0,
    ensures lkp_z(h1, h2, lw, table, beta2, gamma2, j) == 1
        <==> numer_prod(lw, table, beta2, gamma2, j) == denom_prod(h1, h2, beta2, gamma2, j),
{
    lemma_z_telescopes(h1, h2, lw, table, beta2, gamma2, j);
    lemma_denom_prod_nonzero(h1, h2, beta2, gamma2, j);
    let z = lkp_z(h1, h2, lw, table, beta2, gamma2, j);
    let dp = denom_prod(h1, h2, beta2, gamma2, j);
    lemma_z_in_field(h1, h2, lw, table, beta2, gamma2, j);
    crate::field::lemma_fmul_one(dp);
    if fmul(z, dp) == dp && z != 1 {
        // cancel dp on both sides
        crate::field::lemma_finv(dp);
        let dpi = finv(dp);
        crate::field::lemma_fmul_assoc(z, dp, dpi);
        crate::field::lemma_fmul_one(z);
    }
}
/// multiplies by the row's numerator and the inverse of its denominator.
pub open spec fn lkp_z(
    h1: Seq<u64>, h2: Seq<u64>, lw: Seq<u64>, table: Seq<u64>,
    beta2: u64, gamma2: u64, j: int,
) -> u64
    decreases j,
{
    if j <= 0 {
        1
    } else {
        fmul(
            finv(lkp_denom(h1, h2, beta2, gamma2, j - 1)),
            fmul(
                fmul(
                    fmul(lkp_z(h1, h2, lw, table, beta2, gamma2, j - 1), beta1_s(beta2)),
                    fadd(gamma2, gi(lw, j - 1)),
                ),
                pair_term(table, beta2, gamma2, j - 1),
            ),
        )
    }
}

impl ConstraintSystem {
    /// Build the lookup columns: select the witness values with the lookup
    /// selector, join them with the table values, sort the union by value,
    /// and split it into two length-`n` windows sharing one boundary
    /// element.  Sorting is sound because the grand product proves multiset
    /// equality, not positional equality; the ensures state exactly that the
    /// two windows carry the sorted union of the selected and table values.
    pub fn tbllkp_sortedset(&self, witness: &Vec<Vec<u64>>) -> (r: LookupEvals)
        requires self.wf(), witness_wf(witness@, self.domain.n as nat),
        ensures
            r.l@.len() == 0,
            r.lw@.len() == self.domain.n - 1,
            r.h1@.len() == self.domain.n,
            r.h2@.len() == self.domain.n,
            all_in_field(r.lw@), all_in_field(r.h1@), all_in_field(r.h2@),
            forall|j: int| 0 <= j < self.domain.n - 1
                ==> r.lw@[j] == fmul(self.lookup_sel@[j], witness@[COLUMNS - 1]@[j]),
            r.h2@[0] == r.h1@[self.domain.n - 1],
            sorted(r.h1@ + r.h2@.drop_first()),
            (r.h1@ + r.h2@.drop_first()).to_multiset() == (r.lw@ + self.table1@).to_multiset(),
            r.h1@ == h1_of(r.lw@, self.table1@, self.domain.n as int),
            r.h2@ == h2_of(r.lw@, self.table1@, self.domain.n as int),
    {
        let n = self.domain.n;
        let mut lw: Vec<u64> = Vec::new();
        let mut j: usize = 0;
        while j < n - 1
            invariant
                j <= n - 1, n == self.domain.n, self.wf(),
                witness_wf(witness@, self.domain.n as nat),
                lw@.len() == j,
                forall|t: int| 0 <= t < j
                    ==> lw@[t] == fmul(self.lookup_sel@[t], witness@[COLUMNS - 1]@[t])
                        && in_field(#[trigger] lw@[t]),
            decreases n - 1 - j,
        {
            lw.push(mul_f(self.lookup_sel[j], witness[COLUMNS - 1][j]));
            j = j + 1;
        }
        let mut s: Vec<u64> = Vec::new();
        let mut i: usize = 0;
        while i < lw.len()
            invariant i <= lw@.len(), s@ == lw@.subrange(0, i as int),
            decreases lw@.len() - i,
        {
            s.push(lw[i]);
            proof {
                assert(s@ =~= lw@.subrange(0, i + 1));
            }
            i = i + 1;
        }
        proof {
            assert(lw@.subrange(0, lw@.len() as int) =~= lw@);
        }
        let mut i2: usize = 0;
        while i2 < self.table1.len()
            invariant
                i2 <= self.table1@.len(),
                s@ == lw@ + self.table1@.subrange(0, i2 as int),
            decreases self.table1@.len() - i2,
        {
            s.push(self.table1[i2]);
            proof {
                assert(s@ =~= lw@ + self.table1@.subrange(0, i2 + 1));
            }
            i2 = i2 + 1;
        }
        proof {
            assert(lw@ + self.table1@.subrange(0, self.table1@.len() as int)
                =~= lw@ + self.table1@);
        }
        let ss = sort_values(&s);
        // ss has length 2 n - 1: windows [0, n) and [n - 1, 2 n - 1).
        let mut h1: Vec<u64> = Vec::new();
        let mut a: usize = 0;
        while a < n
            invariant a <= n, n <= ss@.len(), h1@ == ss@.subrange(0, a as int),
            decreases n - a,
        {
            h1.push(ss[a]);
            proof {
                assert(h1@ =~= ss@.subrange(0, a + 1));
            }
            a = a + 1;
        }
        let mut h2: Vec<u64> = Vec::new();
        h2.push(ss[n - 1]);
        let mut b: usize = n;
        while b < 2 * n - 1
            invariant
                n <= 256, n <= b <= 2 * n - 1, ss@.len() == 2 * n - 1,
                h2@.len() == b - n + 1,
                h2@[0] == ss@[n - 1],
                h2@.drop_first() == ss@.subrange(n as int, b as int),
            decreases 2 * n - 1 - b,
        {
            h2.push(ss[b]);
            proof {
                assert(h2@.drop_first() =~= ss@.subrange(n as int, b + 1));
            }
            b = b + 1;
        }
        proof {
            assert(h1@ + h2@.drop_first() =~= ss@);
            assert(all_in_field(h1@));
            assert(all_in_field(h2@)) by {
                assert(forall|t: int| 1 <= t < h2@.len()
                    ==> #[trigger] h2@[t] == h2@.drop_first()[t - 1]);
            }
            assert(h1@ =~= h1_of(lw@, self.table1@, n as int));
            assert(h2@ =~= h2_of(lw@, self.table1@, n as int));
        }
        LookupEvals { l: Vec::new(), lw, h1, h2 }
    }

    /// The grand-product aggregation: run the recurrence over all rows with
    /// one batched inversion, demand the terminal condition `z[n-1] == 1`,
    /// store the aggregation values, and return the domain interpolation of
    /// `z` blinded by a random multiple of the vanishing polynomial (the
    /// blinding changes no evaluation on the domain).
    #[verifier::rlimit(100)]
    pub fn tbllkp_aggreg(
        &self,
        lkpevl: &mut LookupEvals,
        oracles: &RandomOracles,
        blind: (u64, u64, u64),
    ) -> (r: Result<Vec<u64>, ProofError>)
        requires
            self.wf(), oracles.wf(),
            in_field(blind.0), in_field(blind.1), in_field(blind.2),
            old(lkpevl).lw@.len() == self.domain.n - 1,
            old(lkpevl).h1@.len() == self.domain.n,
            old(lkpevl).h2@.len() == self.domain.n,
            all_in_field(old(lkpevl).lw@), all_in_field(old(lkpevl).h1@),
            all_in_field(old(lkpevl).h2@),
        ensures
            final(lkpevl).lw == old(lkpevl).lw,
            final(lkpevl).h1 == old(lkpevl).h1,
            final(lkpevl).h2 == old(lkpevl).h2,
            r is Err <==> lkp_z(
                old(lkpevl).h1@, old(lkpevl).h2@, old(lkpevl).lw@, self.table1@,
                oracles.beta2, oracles.gamma2, self.domain.n - 1,
            ) != 1,
            r is Err ==> r == Err::<Vec<u64>, ProofError>(ProofError::ArgumentIntegrityFailed),
            r is Err ==> final(lkpevl).l == old(lkpevl).l,
            r is Ok ==> final(lkpevl).l@.len() == self.domain.n,
            r is Ok ==> forall|j: int| 0 <= j < self.domain.n
                ==> final(lkpevl).l@[j] == lkp_z(
                    old(lkpevl).h1@, old(lkpevl).h2@, old(lkpevl).lw@, self.table1@,
                    oracles.beta2, oracles.gamma2, j,
                ),
            r is Ok ==> all_in_field(final(lkpevl).l@),
            r is Ok ==> all_in_field(r->Ok_0@) && r->Ok_0@.len() == self.domain.n + 3,
            r is Ok ==> r->Ok_0@ == aggreg_poly_of(
                old(lkpevl).h1@, old(lkpevl).h2@, old(lkpevl).lw@, self.table1@,
                oracles.beta2, oracles.gamma2, blind, self.domain.pows@,
                self.domain.n as int,
            ),
            r is Ok ==> forall|j: int| 0 <= j < self.domain.n
                ==> peval(r->Ok_0@, #[trigger] self.domain.pows@[j]) == lkp_z(
                    old(lkpevl).h1@, old(lkpevl).h2@, old(lkpevl).lw@, self.table1@,
                    oracles.beta2, oracles.gamma2, j,
                ),
    {
        let n = self.domain.n;
        let beta2 = oracles.beta2;
        let gamma2 = oracles.gamma2;
        let beta1 = add_f(1, beta2);
        let gb = mul_f(beta1, gamma2);
        let ghost h1s = lkpevl.h1@;
        let ghost h2s = lkpevl.h2@;
        let ghost lws = lkpevl.lw@;
        let mut denom: Vec<u64> = Vec::new();
        let mut j: usize = 0;
        while j < n - 1
            invariant
                j <= n - 1, n == self.domain.n, self.wf(),
                h1s == lkpevl.h1@, h2s == lkpevl.h2@, lws == lkpevl.lw@,
                lkpevl.h1@.len() == n, lkpevl.h2@.len() == n, lkpevl.lw@.len() == n - 1,
                all_in_field(lkpevl.h1@), all_in_field(lkpevl.h2@), all_in_field(lkpevl.lw@),
                beta1 == beta1_s(beta2), gb == gb1_s(beta2, gamma2),
                in_field(beta1), in_field(gb), in_field(beta2), in_field(gamma2),
                denom@.len() == j,
                forall|t: int| 0 <= t < j
                    ==> #[trigger] denom@[t] == lkp_denom(h1s, h2s, beta2, gamma2, t)
                        && in_field(denom@[t]),
            decreases n - 1 - j,
        {
            let p1 = add_f(add_f(gb, lkpevl.h1[j]), mul_f(beta2, lkpevl.h1[j + 1]));
            let p2 = add_f(add_f(gb, lkpevl.h2[j]), mul_f(beta2, lkpevl.h2[j + 1]));
            denom.push(mul_f(p1, p2));
            j = j + 1;
        }
        let dinv = batch_invert(&denom);
        let mut z: Vec<u64> = Vec::new();
        z.push(1);
        let mut t: usize = 0;
        while t < n - 1
            invariant
                t <= n - 1, n == self.domain.n, self.wf(),
                h1s == lkpevl.h1@, h2s == lkpevl.h2@, lws == lkpevl.lw@,
                lkpevl.h1@.len() == n, lkpevl.h2@.len() == n, lkpevl.lw@.len() == n - 1,
                all_in_field(lkpevl.h1@), all_in_field(lkpevl.h2@), all_in_field(lkpevl.lw@),
                beta1 == beta1_s(beta2), gb == gb1_s(beta2, gamma2),
                in_field(beta1), in_field(gb), in_field(beta2), in_field(gamma2),
                denom@.len() == n - 1, dinv@.len() == n - 1,
                forall|t2: int| 0 <= t2 < n - 1
                    ==> #[trigger] denom@[t2] == lkp_denom(h1s, h2s, beta2, gamma2, t2),
                forall|t2: int| 0 <= t2 < n - 1 ==> #[trigger] dinv@[t2] == finv(denom@[t2]),
                all_in_field(dinv@),
                z@.len() == t + 1,
                forall|t2: int| 0 <= t2 <= t
                    ==> #[trigger] z@[t2] == lkp_z(h1s, h2s, lws, self.table1@, beta2, gamma2, t2)
                        && in_field(z@[t2]),
            decreases n - 1 - t,
        {
            let tt = add_f(add_f(gb, self.table1[t]), mul_f(beta2, self.table1[t + 1]));
            let num = mul_f(mul_f(mul_f(z[t], beta1), add_f(gamma2, lkpevl.lw[t])), tt);
            z.push(mul_f(dinv[t], num));
            t = t + 1;
        }
        if z[n - 1] != 1 {
            return Err(ProofError::ArgumentIntegrityFailed);
        }
        let interp = interpolate(&self.domain.pows, &z);
        // Blinding: a degree-2 random polynomial times the vanishing
        // polynomial, built as the product of all the domain's linear
        // factors, so it evaluates to zero at every domain point.
        let mut bv: Vec<u64> = Vec::new();
        bv.push(blind.0);
        bv.push(blind.1);
        bv.push(blind.2);
        proof {
            assert(bv@ =~= blind_poly_of(blind, self.domain.pows@, 0));
        }
        let mut k: usize = 0;
        while k < n
            invariant
                k <= n, n == self.domain.n, self.wf(),
                all_in_field(bv@), bv@.len() == 3 + k,
                bv@ == blind_poly_of(blind, self.domain.pows@, k as int),
                forall|j2: int| 0 <= j2 < k
                    ==> peval(bv@, #[trigger] self.domain.pows@[j2]) == 0,
            decreases n - k,
        {
            let ghost prev = bv@;
            let c = self.domain.pows[k];
            bv = pmul_lin(&bv, c);
            proof {
                assert forall|j2: int| 0 <= j2 <= k
                    implies peval(bv@, #[trigger] self.domain.pows@[j2]) == 0 by {
                    let x = self.domain.pows@[j2];
                    lemma_eval_pmul_lin(prev, c, x);
                    lemma_peval_bound(prev, x);
                    lemma_fadd_bound(x, c);
                    if j2 < k {
                        crate::field::lemma_fmul_zero(crate::field::fsub(x, c));
                    } else {
                        crate::field::lemma_fsub_cancel(x, c);
                        crate::field::lemma_fmul_zero(peval(prev, x));
                    }
                }
            }
            k = k + 1;
        }
        let res = padd(&interp, &bv);
        proof {
            assert forall|j2: int| 0 <= j2 < n
                implies peval(res@, #[trigger] self.domain.pows@[j2])
                    == lkp_z(h1s, h2s, lws, self.table1@, beta2, gamma2, j2) by {
                let x = self.domain.pows@[j2];
                lemma_eval_padd(interp@, bv@, x);
                lemma_peval_bound(interp@, x);
                crate::field::lemma_fmul_zero(peval(interp@, x));
            }
            assert(z@ =~= zvals_of(h1s, h2s, lws, self.table1@, beta2, gamma2, n as int));
            assert(res@ == aggreg_poly_of(
                h1s, h2s, lws, self.table1@, beta2, gamma2, blind,
                self.domain.pows@, n as int,
            ));
        }
        lkpevl.l = z;
        Ok(res)
    }

    /// Interpolate the per-proof lookup columns into coefficient form.  The
    /// selected-values column is one row short of the domain (the wrap row
    /// carries no lookup), so it is padded with a zero row first.
    pub fn lookup_polys(&self, evals: &LookupEvals, l: Vec<u64>) -> (r: LookupPolys)
        requires
            self.wf(),
            evals.lw@.len() == self.domain.n - 1,
            evals.h1@.len() == self.domain.n,
            evals.h2@.len() == self.domain.n,
            all_in_field(evals.lw@), all_in_field(evals.h1@), all_in_field(evals.h2@),
            all_in_field(l@),
        ensures
            r.l == l,
            r.lw@ == crate::poly::newton_interp(
                self.domain.pows@, evals.lw@ + seq![0u64], self.domain.n as int,
            ),
            r.h1@ == crate::poly::newton_interp(
                self.domain.pows@, evals.h1@, self.domain.n as int,
            ),
            r.h2@ == crate::poly::newton_interp(
                self.domain.pows@, evals.h2@, self.domain.n as int,
            ),
            r.lw@.len() <= self.domain.n,
            r.h1@.len() <= self.domain.n,
            r.h2@.len() <= self.domain.n,
            all_in_field(r.lw@), all_in_field(r.h1@), all_in_field(r.h2@),
            forall|j: int| 0 <= j < self.domain.n - 1
                ==> peval(r.lw@, #[trigger] self.domain.pows@[j]) == evals.lw@[j],
            forall|j: int| 0 <= j < self.domain.n
                ==> peval(r.h1@, #[trigger] self.domain.pows@[j]) == evals.h1@[j],
            forall|j: int| 0 <= j < self.domain.n
                ==> peval(r.h2@, #[trigger] self.domain.pows@[j]) == evals.h2@[j],
    {
        let n = self.domain.n;
        let mut lwp: Vec<u64> = Vec::new();
        let mut i: usize = 0;
        while i < n - 1
            invariant
                i <= n - 1, n == self.domain.n,
                evals.lw@.len() == n - 1, all_in_field(evals.lw@),
                lwp@ == evals.lw@.subrange(0, i as int),
            decreases n - 1 - i,
        {
            lwp.push(evals.lw[i]);
            proof {
                assert(lwp@ =~= evals.lw@.subrange(0, i + 1));
            }
            i = i + 1;
        }
        proof {
            assert(evals.lw@.subrange(0, evals.lw@.len() as int) =~= evals.lw@);
        }
        lwp.push(0);
        proof {
            assert(lwp@ =~= evals.lw@ + seq![0u64]);
        }
        let lwm = interpolate(&self.domain.pows, &lwp);
        let h1m = interpolate(&self.domain.pows, &evals.h1);
        let h2m = interpolate(&self.domain.pows, &evals.h2);
        LookupPolys { l, lw: lwm, h1: h1m, h2: h2m }
    }
}

/// Multiset preservation of the sorted-set construction: the first window
/// concatenated with the second window less its duplicated boundary value
/// is sorted and carries exactly the multiset of the selected and table
/// values, so re-sorting any sequence of that multiset reproduces it.
pub proof fn lemma_sortedset_round_trip(
    h1: Seq<u64>, h2: Seq<u64>, lw: Seq<u64>, table: Seq<u64>, s: Seq<u64>,
)
    requires
        sorted(h1 + h2.drop_first()),
        (h1 + h2.drop_first()).to_multiset() == (lw + table).to_multiset(),
        sorted(s),
        s.to_multiset() == (lw + table).to_multiset(),
    ensures s == h1 + h2.drop_first(),
{
    crate::sorting::lemma_sorted_unique(s, h1 + h2.drop_first());
}

/// The numerator of the first boundary term: `alpha1 * (l - 1)`, divided
/// exactly by `X - 1` to certify `z[0] == 1`.
#[verifier::opaque]
pub open spec fn bnd1_num_s(l: Seq<u64>, a1: u64) -> Seq<u64> {
    pscale_s(a1, psub_s(l, seq![1u64]))
}

/// The numerator of the second boundary term:
/// `alpha2 * (l - 1) + alpha3 * (h1 - h2(omega X))`, divided exactly by
/// `X - omega^(n-1)` to certify the terminal condition and the shared
/// window boundary.
#[verifier::opaque]
pub open spec fn bnd2_num_s(
    l: Seq<u64>, h1: Seq<u64>, h2: Seq<u64>, omega: u64, a2: u64, a3: u64,
) -> Seq<u64> {
    padd_s(
        pscale_s(a2, psub_s(l, seq![1u64])),
        pscale_s(a3, psub_s(h1, pshift_arg_s(h2, omega))),
    )
}

/// The per-row recurrence identity of the lookup argument as a polynomial:
/// `l(X) (1+b2) (g2 + lw(X)) (g' + t(X) + b2 t(wX))
///  - l(wX) (g' + h1(X) + b2 h1(wX)) (g' + h2(X) + b2 h2(wX))`,
/// masked by `X - omega^(n-1)` so the wrap row is unconstrained, and scaled
/// by its combiner power.
#[verifier::opaque]
pub open spec fn lkp_main_s(
    l: Seq<u64>, lw: Seq<u64>, h1: Seq<u64>, h2: Seq<u64>, table: Seq<u64>,
    omega: u64, beta2: u64, gamma2: u64, a0: u64, c: u64,
) -> Seq<u64> {
    let b1 = beta1_s(beta2);
    let gb = gb1_s(beta2, gamma2);
    let left = pmul_s(
        pmul_s(pscale_s(b1, l), padd_s(seq![gamma2], lw)),
        padd_s(seq![gb], padd_s(table, pscale_s(beta2, pshift_arg_s(table, omega)))),
    );
    let right = pmul_s(
        pmul_s(
            pshift_arg_s(l, omega),
            padd_s(seq![gb], padd_s(h1, pscale_s(beta2, pshift_arg_s(h1, omega)))),
        ),
        padd_s(seq![gb], padd_s(h2, pscale_s(beta2, pshift_arg_s(h2, omega)))),
    );
    pscale_s(a0, pmul_lin_s(psub_s(left, right), c))
}

impl ConstraintSystem {
    /// Assemble the masked, scaled per-row recurrence identity in
    /// coefficient form.
    #[verifier::rlimit(100)]
    fn lookup_main_poly(
        &self,
        lkppolys: &LookupPolys,
        oracles: &RandomOracles,
        a0: u64,
    ) -> (r: Vec<u64>)
        requires
            self.wf(), oracles.wf(), in_field(a0),
            all_in_field(lkppolys.l@), all_in_field(lkppolys.lw@),
            all_in_field(lkppolys.h1@), all_in_field(lkppolys.h2@),
            lkppolys.l@.len() <= self.domain.n + 4,
            lkppolys.lw@.len() <= self.domain.n,
            lkppolys.h1@.len() <= self.domain.n,
            lkppolys.h2@.len() <= self.domain.n,
        ensures
            r@ == lkp_main_s(
                lkppolys.l@, lkppolys.lw@, lkppolys.h1@, lkppolys.h2@, self.tablem@,
                self.domain.omega, oracles.beta2, oracles.gamma2, a0,
                self.domain.pows@[self.domain.n - 1],
            ),
            all_in_field(r@), r@.len() <= 3 * self.domain.n + 11,
    {
        proof {
            reveal(lkp_main_s);
        }
        let n = self.domain.n;
        let omega = self.domain.omega;
        let cnm1 = self.domain.pows[n - 1];
        let beta1 = add_f(1, oracles.beta2);
        let gb = mul_f(beta1, oracles.gamma2);
        let mut gamma2_poly: Vec<u64> = Vec::new();
        gamma2_poly.push(oracles.gamma2);
        proof {
            assert(gamma2_poly@ =~= seq![oracles.gamma2]);
        }
        let mut gb_poly: Vec<u64> = Vec::new();
        gb_poly.push(gb);
        proof {
            assert(gb_poly@ =~= seq![gb1_s(oracles.beta2, oracles.gamma2)]);
        }
        let tshift = pshift_arg(&self.tablem, omega);
        let tterm = padd(&gb_poly, &padd(&self.tablem, &pscale(oracles.beta2, &tshift)));
        let left = pmul(
            &pmul(&pscale(beta1, &lkppolys.l), &padd(&gamma2_poly, &lkppolys.lw)),
            &tterm,
        );
        let lnext = pshift_arg(&lkppolys.l, omega);
        let h1term = padd(
            &gb_poly,
            &padd(&lkppolys.h1, &pscale(oracles.beta2, &pshift_arg(&lkppolys.h1, omega))),
        );
        let h2term = padd(
            &gb_poly,
            &padd(&lkppolys.h2, &pscale(oracles.beta2, &pshift_arg(&lkppolys.h2, omega))),
        );
        let right = pmul(&pmul(&lnext, &h1term), &h2term);
        let diff = psub(&left, &right);
        let masked = pmul_lin(&diff, cnm1);
        pscale(a0, &masked)
    }

    /// The lookup contribution to the quotient polynomial: the two exactly
    /// divided boundary terms and the masked per-row recurrence identity.
    /// Fails with `PolyDivisionFailed` exactly when either boundary division
    /// leaves a nonzero remainder.
    #[verifier::rlimit(100)]
    pub fn tbllkp_quot(
        &self,
        lkppolys: &LookupPolys,
        oracles: &RandomOracles,
        alpha: &Vec<u64>,
    ) -> (r: Result<(Vec<u64>, Vec<u64>), ProofError>)
        requires
            self.wf(), oracles.wf(),
            alpha@.len() >= 4, all_in_field(alpha@),
            all_in_field(lkppolys.l@), all_in_field(lkppolys.lw@),
            all_in_field(lkppolys.h1@), all_in_field(lkppolys.h2@),
            lkppolys.l@.len() <= self.domain.n + 4,
            lkppolys.lw@.len() <= self.domain.n,
            lkppolys.h1@.len() <= self.domain.n,
            lkppolys.h2@.len() <= self.domain.n,
        ensures
            r is Err <==> (
                lin_rem_s(bnd1_num_s(lkppolys.l@, alpha@[1]), 1) != 0
                || lin_rem_s(
                    bnd2_num_s(
                        lkppolys.l@, lkppolys.h1@, lkppolys.h2@, self.domain.omega,
                        alpha@[2], alpha@[3],
                    ),
                    self.domain.pows@[self.domain.n - 1],
                ) != 0
            ),
            r is Err ==> r == Err::<(Vec<u64>, Vec<u64>), ProofError>(
                ProofError::PolyDivisionFailed,
            ),
            r is Ok ==> (r->Ok_0).0@ == lkp_main_s(
                lkppolys.l@, lkppolys.lw@, lkppolys.h1@, lkppolys.h2@, self.tablem@,
                self.domain.omega, oracles.beta2, oracles.gamma2, alpha@[0],
                self.domain.pows@[self.domain.n - 1],
            ),
            r is Ok ==> (r->Ok_0).1@ == padd_s(
                lin_quot_s(bnd1_num_s(lkppolys.l@, alpha@[1]), 1),
                lin_quot_s(
                    bnd2_num_s(
                        lkppolys.l@, lkppolys.h1@, lkppolys.h2@, self.domain.omega,
                        alpha@[2], alpha@[3],
                    ),
                    self.domain.pows@[self.domain.n - 1],
                ),
            ),
            r is Ok ==> all_in_field((r->Ok_0).0@) && all_in_field((r->Ok_0).1@)
                && (r->Ok_0).0@.len() <= 3 * self.domain.n + 11
                && (r->Ok_0).1@.len() <= self.domain.n + 4,
    {
        proof {
            reveal(bnd1_num_s);
            reveal(bnd2_num_s);
        }
        let n = self.domain.n;
        let omega = self.domain.omega;
        let cnm1 = self.domain.pows[n - 1];
        let mut one_poly: Vec<u64> = Vec::new();
        one_poly.push(1);
        proof {
            assert(one_poly@ =~= seq![1u64]);
        }
        let lm1 = psub(&lkppolys.l, &one_poly);
        let a1lm1 = pscale(alpha[1], &lm1);
        let (q1, rem1) = divide_by_linear(&a1lm1, 1);
        if rem1 != 0 {
            return Err(ProofError::PolyDivisionFailed);
        }
        let h2w = pshift_arg(&lkppolys.h2, omega);
        let d2 = psub(&lkppolys.h1, &h2w);
        let b2num = padd(&pscale(alpha[2], &lm1), &pscale(alpha[3], &d2));
        let (q2, rem2) = divide_by_linear(&b2num, cnm1);
        if rem2 != 0 {
            return Err(ProofError::PolyDivisionFailed);
        }
        let main = self.lookup_main_poly(lkppolys, oracles, alpha[0]);
        let bnd = padd(&q1, &q2);
        Ok((main, bnd))
    }
}

} // verus!
