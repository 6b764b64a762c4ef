//! The prover orchestration: witness binding, commitment, challenge
//! derivation, grand-product aggregation, quotient assembly with exact
//! vanishing division, linearization, and the batched opening combination.
//! Each transition is a pure function of the previous state plus one
//! transcript interaction, in the strict commit-before-challenge order; any
//! failure aborts the whole construction and no partial proof is emitted.
use vstd::prelude::*;

verus! {

use crate::circuit::{witness_wf, ConstraintSystem, COLUMNS};
use crate::errors::ProofError;
use crate::field::{all_in_field, fadd, fmul, fpow, in_field, P, add_f, mul_f};
use crate::poly::{
    divide_by_vanishing, eval_poly, interpolate, is_zero_poly, padd, pmul, pscale,
};
use crate::oracles::RandomOracles;
use crate::transcript::{fold_chal, mix_all_s, mix_s, perm_s, Sponge};

/// The endomorphism coefficient used to fold scalar challenges.
pub const ENDO_R: u64 = 94;

/// A polynomial commitment: the digest of its coefficients under the
/// transcript's mixing permutation, from the commitment initial state.
pub open spec fn commit_s(c: Seq<u64>) -> u64 {
    mix_all_s(1, c)
}

/// A hiding commitment: the digest additionally absorbs the blinding factor.
pub open spec fn commit_hide_s(c: Seq<u64>, b: u64) -> u64 {
    mix_s(mix_all_s(1, c), b)
}

/// Commit to a polynomial without hiding.
pub fn commit(poly: &Vec<u64>) -> (r: u64)
    requires all_in_field(poly@),
    ensures r == commit_s(poly@), in_field(r),
{
    let mut sp = Sponge { state: 1 };
    sp.absorb_vec(poly);
    sp.digest()
}

/// Commit to a polynomial with a blinding factor.
pub fn commit_hiding(poly: &Vec<u64>, b: u64) -> (r: u64)
    requires all_in_field(poly@), in_field(b),
    ensures r == commit_hide_s(poly@, b), in_field(r),
{
    let mut sp = Sponge { state: 1 };
    sp.absorb_vec(poly);
    sp.absorb(b);
    sp.digest()
}

/// The lookup-selected witness values, row by row.
pub open spec fn lw_spec(index: ConstraintSystem, witness: Seq<Vec<u64>>) -> Seq<u64> {
    Seq::new((index.domain.n - 1) as nat, |j: int| fmul(index.lookup_sel@[j], witness[COLUMNS - 1]@[j]))
}

/// The first lookup challenge, as the transcript derives it from the
/// public-input commitment and the witness commitments.
pub open spec fn chal_beta2(ps: Seq<u64>, wcomm: Seq<u64>) -> u64 {
    perm_s(perm_s(perm_s(mix_all_s(mix_s(0, commit_s(ps)), wcomm))))
}

/// The second lookup challenge, drawn right after the first.
pub open spec fn chal_gamma2(ps: Seq<u64>, wcomm: Seq<u64>) -> u64 {
    perm_s(chal_beta2(ps, wcomm))
}

/// The public-input values padded with zero rows to the domain length.
pub open spec fn pub_padded_s(index: ConstraintSystem, witness: Seq<Vec<u64>>) -> Seq<u64> {
    Seq::new(index.domain.n as nat, |j: int| if j < index.public { witness[0]@[j] } else { 0 })
}

/// The negated public-input interpolant of a run.
#[verifier::opaque]
pub open spec fn ps_s(index: ConstraintSystem, witness: Seq<Vec<u64>>) -> Seq<u64> {
    crate::poly::pscale_s(
        (P - 1) as u64,
        crate::poly::newton_interp(
            index.domain.pows@, pub_padded_s(index, witness), index.domain.n as int,
        ),
    )
}

/// The interpolant of witness column `i`.
#[verifier::opaque]
pub open spec fn wpoly_s(index: ConstraintSystem, witness: Seq<Vec<u64>>, i: int) -> Seq<u64> {
    crate::poly::newton_interp(index.domain.pows@, witness[i]@, index.domain.n as int)
}

/// The witness commitments of a run.
#[verifier::opaque]
pub open spec fn wcomm_s(
    index: ConstraintSystem, witness: Seq<Vec<u64>>, blinds: Seq<u64>,
) -> Seq<u64> {
    Seq::new(COLUMNS as nat, |i: int| commit_hide_s(wpoly_s(index, witness, i), blinds[i]))
}

/// The first sorted window of a run.
#[verifier::opaque]
pub open spec fn run_h1(index: ConstraintSystem, witness: Seq<Vec<u64>>) -> Seq<u64> {
    crate::tbllkp::h1_of(lw_spec(index, witness), index.table1@, index.domain.n as int)
}

/// The second sorted window of a run.
#[verifier::opaque]
pub open spec fn run_h2(index: ConstraintSystem, witness: Seq<Vec<u64>>) -> Seq<u64> {
    crate::tbllkp::h2_of(lw_spec(index, witness), index.table1@, index.domain.n as int)
}

/// The first lookup challenge of a run.
pub open spec fn run_beta2(
    index: ConstraintSystem, witness: Seq<Vec<u64>>, blinds: Seq<u64>,
) -> u64 {
    chal_beta2(ps_s(index, witness), wcomm_s(index, witness, blinds))
}

/// The second lookup challenge of a run.
pub open spec fn run_gamma2(
    index: ConstraintSystem, witness: Seq<Vec<u64>>, blinds: Seq<u64>,
) -> u64 {
    chal_gamma2(ps_s(index, witness), wcomm_s(index, witness, blinds))
}

/// The negated public-input interpolant takes the negated public value on
/// every domain point.
#[verifier::opaque]
pub open spec fn pub_eval_facts(
    index: ConstraintSystem, witness: Seq<Vec<u64>>, ps: Seq<u64>,
) -> bool {
    forall|j: int| 0 <= j < index.domain.n
        ==> crate::poly::peval(ps, #[trigger] index.domain.pows@[j])
            == fmul((P - 1) as u64, if j < index.public { witness[0]@[j] } else { 0 })
}

/// The grand-product terminal condition fails for the challenges of this
/// run: the aggregation over the sorted windows does not return to one.
#[verifier::opaque]
pub open spec fn aggregation_fails(
    index: ConstraintSystem, witness: Seq<Vec<u64>>, blinds: Seq<u64>,
) -> bool {
    crate::tbllkp::lkp_z(
        run_h1(index, witness), run_h2(index, witness), lw_spec(index, witness),
        index.table1@, run_beta2(index, witness, blinds), run_gamma2(index, witness, blinds),
        index.domain.n - 1,
    ) != 1
}

/// The blinded aggregation polynomial of a run.
#[verifier::opaque]
pub open spec fn run_lpoly(
    index: ConstraintSystem, witness: Seq<Vec<u64>>, blinds: Seq<u64>,
) -> Seq<u64> {
    crate::tbllkp::aggreg_poly_of(
        run_h1(index, witness), run_h2(index, witness), lw_spec(index, witness),
        index.table1@, run_beta2(index, witness, blinds), run_gamma2(index, witness, blinds),
        (blinds[COLUMNS as int], blinds[COLUMNS + 1], blinds[COLUMNS + 2]),
        index.domain.pows@, index.domain.n as int,
    )
}

/// The folded combiner challenge of a run.
#[verifier::opaque]
pub open spec fn run_alpha(
    index: ConstraintSystem, witness: Seq<Vec<u64>>, blinds: Seq<u64>,
) -> u64 {
    crate::transcript::fold_chal_s(
        perm_s(mix_s(
            run_gamma2(index, witness, blinds),
            commit_hide_s(run_lpoly(index, witness, blinds), blinds[COLUMNS + 3]),
        )),
        ENDO_R,
    )
}

/// The generic gate's quotient contribution of a run, with the negated
/// public polynomial folded in.
#[verifier::opaque]
pub open spec fn gen_poly_s(index: ConstraintSystem, witness: Seq<Vec<u64>>) -> Seq<u64> {
    crate::poly::padd_s(
        crate::poly::padd_s(
            crate::poly::padd_s(
                crate::poly::padd_s(
                    crate::poly::pmul_s(index.qlm@, wpoly_s(index, witness, 0)),
                    crate::poly::pmul_s(index.qrm@, wpoly_s(index, witness, 1)),
                ),
                crate::poly::pmul_s(index.qom@, wpoly_s(index, witness, 2)),
            ),
            crate::poly::pmul_s(
                index.qmm@,
                crate::poly::pmul_s(wpoly_s(index, witness, 0), wpoly_s(index, witness, 1)),
            ),
        ),
        crate::poly::padd_s(index.qcm@, ps_s(index, witness)),
    )
}

/// One of the run's exact divisions fails: a boundary term of the lookup
/// argument leaves a nonzero remainder, or the assembled quotient numerator
/// is not divisible by the vanishing polynomial.
#[verifier::opaque]
pub open spec fn division_fails(
    index: ConstraintSystem, witness: Seq<Vec<u64>>, blinds: Seq<u64>,
) -> bool {
    let n = index.domain.n as int;
    let pows = index.domain.pows@;
    let lp = run_lpoly(index, witness, blinds);
    let a = run_alpha(index, witness, blinds);
    let lwm = crate::poly::newton_interp(pows, lw_spec(index, witness) + seq![0u64], n);
    let h1m = crate::poly::newton_interp(pows, run_h1(index, witness), n);
    let h2m = crate::poly::newton_interp(pows, run_h2(index, witness), n);
    ||| crate::poly::lin_rem_s(crate::tbllkp::bnd1_num_s(lp, fpow(a, 2)), 1) != 0
    ||| crate::poly::lin_rem_s(
        crate::tbllkp::bnd2_num_s(lp, h1m, h2m, index.domain.omega, fpow(a, 3), fpow(a, 4)),
        pows[n - 1],
    ) != 0
    ||| !crate::poly::vdiv_exact(
        crate::poly::padd_s(
            gen_poly_s(index, witness),
            crate::tbllkp::lkp_main_s(
                lp, lwm, h1m, h2m, index.tablem@, index.domain.omega,
                run_beta2(index, witness, blinds), run_gamma2(index, witness, blinds),
                fpow(a, 1), pows[n - 1],
            ),
        ),
        n,
    )
}

/// The witness commitments are hiding commitments to interpolants of the
/// witness columns.
#[verifier::opaque]
pub open spec fn witness_comm_facts(
    index: ConstraintSystem, witness: Seq<Vec<u64>>, blinds: Seq<u64>, wcm: Seq<u64>,
) -> bool {
    exists|wps: Seq<Seq<u64>>|
        wps.len() == COLUMNS
        && (forall|i: int, j: int| 0 <= i < COLUMNS && 0 <= j < index.domain.n
            ==> crate::poly::peval(#[trigger] wps[i], #[trigger] index.domain.pows@[j])
                == witness[i]@[j])
        && (forall|i: int| 0 <= i < COLUMNS
            ==> wcm[i] == commit_hide_s(#[trigger] wps[i], blinds[i]))
}

/// The grand-product terminal condition held for the lookup challenges that
/// the witness commitments determine through the transcript.
#[verifier::opaque]
pub open spec fn lookup_terminal_facts(
    index: ConstraintSystem, witness: Seq<Vec<u64>>, wcm: Seq<u64>,
) -> bool {
    exists|ps: Seq<u64>, h1: Seq<u64>, h2: Seq<u64>|
        #![trigger crate::tbllkp::lkp_z(
            h1, h2, lw_spec(index, witness), index.table1@,
            chal_beta2(ps, wcm), chal_gamma2(ps, wcm), index.domain.n - 1,
        )]
        (forall|j: int| 0 <= j < index.domain.n
            ==> crate::poly::peval(ps, #[trigger] index.domain.pows@[j])
                == fmul((P - 1) as u64,
                    if j < index.public { witness[0]@[j] } else { 0 }))
        && crate::sorting::sorted(h1 + h2.drop_first())
        && (h1 + h2.drop_first()).to_multiset()
            == (lw_spec(index, witness) + index.table1@).to_multiset()
        && crate::tbllkp::lkp_z(
            h1, h2, lw_spec(index, witness), index.table1@,
            chal_beta2(ps, wcm), chal_gamma2(ps, wcm), index.domain.n - 1,
        ) == 1
}

/// The linearization polynomial: the generic gate written in the selector
/// polynomials with the witness terms fixed to their evaluations.
pub open spec fn lin_poly_s(index: ConstraintSystem, w0z: u64, w1z: u64, w2z: u64) -> Seq<u64> {
    crate::poly::padd_s(
        crate::poly::padd_s(
            crate::poly::padd_s(
                crate::poly::padd_s(
                    crate::poly::pscale_s(w0z, index.qlm@),
                    crate::poly::pscale_s(w1z, index.qrm@),
                ),
                crate::poly::pscale_s(w2z, index.qom@),
            ),
            crate::poly::pscale_s(fmul(w0z, w1z), index.qmm@),
        ),
        index.qcm@,
    )
}

/// The evaluation records and the batched opening of a finished proof are
/// the evaluations of the committed polynomials at the derived evaluation
/// point and its shift: there are polynomials, one committed in `t_comm`,
/// whose evaluations at `zeta` and `zeta * omega` the records hold, with
/// `f` the linearization value, and the opening combination folds exactly
/// those records with the derived opening challenges.
#[verifier::opaque]
pub open spec fn proof_evals_facts(index: ConstraintSystem, pf: ProverProof, ps: Seq<u64>) -> bool {
    let zeta = crate::transcript::fold_chal_s(crate::acceptance::chal_zeta_raw(pf, ps), ENDO_R);
    let zetaw = fmul(zeta, index.domain.omega);
    let e0 = pf.evals@[0];
    let e1 = pf.evals@[1];
    let l0 = eval_list_s(e0, crate::poly::peval(ps, zeta));
    let l1 = eval_list_s(e1, crate::poly::peval(ps, zetaw));
    let fr = crate::acceptance::fr_state(crate::acceptance::chal_zeta_raw(pf, ps), l0, l1);
    &&& exists|polys: Seq<Seq<u64>>, bt: u64|
        #![trigger commit_hide_s(polys[0], bt)]
        polys.len() == 10
        && pf.commitments.t_comm == commit_hide_s(polys[0], bt)
        && (forall|i: int| 0 <= i < COLUMNS
            ==> e0.w@[i] == crate::poly::peval(#[trigger] polys[1 + i], zeta)
                && e1.w@[i] == crate::poly::peval(polys[1 + i], zetaw))
        && e0.t == crate::poly::peval(polys[0], zeta)
        && e1.t == crate::poly::peval(polys[0], zetaw)
        && e0.z == crate::poly::peval(polys[6], zeta)
        && e1.z == crate::poly::peval(polys[6], zetaw)
        && e0.lw == crate::poly::peval(polys[7], zeta)
        && e1.lw == crate::poly::peval(polys[7], zetaw)
        && e0.h1 == crate::poly::peval(polys[8], zeta)
        && e1.h1 == crate::poly::peval(polys[8], zetaw)
        && e0.h2 == crate::poly::peval(polys[9], zeta)
        && e1.h2 == crate::poly::peval(polys[9], zetaw)
        && e0.f == crate::poly::peval(
            lin_poly_s(
                index,
                crate::poly::peval(polys[1], zeta),
                crate::poly::peval(polys[2], zeta),
                crate::poly::peval(polys[3], zeta),
            ),
            zeta,
        )
        && e1.f == crate::poly::peval(
            lin_poly_s(
                index,
                crate::poly::peval(polys[1], zeta),
                crate::poly::peval(polys[2], zeta),
                crate::poly::peval(polys[3], zeta),
            ),
            zetaw,
        )
    &&& pf.proof.combined == open_comb(
        l0, l1,
        crate::transcript::fold_chal_s(perm_s(fr), ENDO_R),
        crate::transcript::fold_chal_s(perm_s(perm_s(fr)), ENDO_R),
        l0.len() as int,
    )
}

/// Packaging of the evaluation-record facts of a finished proof.
#[verifier::rlimit(100)]
proof fn lemma_proof_evals_facts(
    index: ConstraintSystem, pf: ProverProof, ps: Seq<u64>,
    t: Seq<u64>, w0: Seq<u64>, w1: Seq<u64>, w2: Seq<u64>, w3: Seq<u64>, w4: Seq<u64>,
    ll: Seq<u64>, llw: Seq<u64>, lh1: Seq<u64>, lh2: Seq<u64>, bt: u64,
)
    requires
        pf.evals@.len() == 2,
        pf.evals@[0].w@.len() == COLUMNS, pf.evals@[1].w@.len() == COLUMNS,
        pf.commitments.t_comm == commit_hide_s(t, bt),
        ({
            let zeta = crate::transcript::fold_chal_s(
                crate::acceptance::chal_zeta_raw(pf, ps), ENDO_R,
            );
            let zetaw = fmul(zeta, index.domain.omega);
            let e0 = pf.evals@[0];
            let e1 = pf.evals@[1];
            &&& e0.w@[0] == crate::poly::peval(w0, zeta) && e1.w@[0] == crate::poly::peval(w0, zetaw)
            &&& e0.w@[1] == crate::poly::peval(w1, zeta) && e1.w@[1] == crate::poly::peval(w1, zetaw)
            &&& e0.w@[2] == crate::poly::peval(w2, zeta) && e1.w@[2] == crate::poly::peval(w2, zetaw)
            &&& e0.w@[3] == crate::poly::peval(w3, zeta) && e1.w@[3] == crate::poly::peval(w3, zetaw)
            &&& e0.w@[4] == crate::poly::peval(w4, zeta) && e1.w@[4] == crate::poly::peval(w4, zetaw)
            &&& e0.t == crate::poly::peval(t, zeta) && e1.t == crate::poly::peval(t, zetaw)
            &&& e0.z == crate::poly::peval(ll, zeta) && e1.z == crate::poly::peval(ll, zetaw)
            &&& e0.lw == crate::poly::peval(llw, zeta) && e1.lw == crate::poly::peval(llw, zetaw)
            &&& e0.h1 == crate::poly::peval(lh1, zeta) && e1.h1 == crate::poly::peval(lh1, zetaw)
            &&& e0.h2 == crate::poly::peval(lh2, zeta) && e1.h2 == crate::poly::peval(lh2, zetaw)
            &&& e0.f == crate::poly::peval(
                lin_poly_s(
                    index,
                    crate::poly::peval(w0, zeta),
                    crate::poly::peval(w1, zeta),
                    crate::poly::peval(w2, zeta),
                ),
                zeta,
            )
            &&& e1.f == crate::poly::peval(
                lin_poly_s(
                    index,
                    crate::poly::peval(w0, zeta),
                    crate::poly::peval(w1, zeta),
                    crate::poly::peval(w2, zeta),
                ),
                zetaw,
            )
            &&& {
                let l0 = eval_list_s(e0, crate::poly::peval(ps, zeta));
                let l1 = eval_list_s(e1, crate::poly::peval(ps, zetaw));
                let fr = crate::acceptance::fr_state(
                    crate::acceptance::chal_zeta_raw(pf, ps), l0, l1,
                );
                pf.proof.combined == open_comb(
                    l0, l1,
                    crate::transcript::fold_chal_s(perm_s(fr), ENDO_R),
                    crate::transcript::fold_chal_s(perm_s(perm_s(fr)), ENDO_R),
                    l0.len() as int,
                )
            }
        }),
    ensures proof_evals_facts(index, pf, ps),
{
    reveal(proof_evals_facts);
    let polys = seq![t, w0, w1, w2, w3, w4, ll, llw, lh1, lh2];
    let zeta = crate::transcript::fold_chal_s(crate::acceptance::chal_zeta_raw(pf, ps), ENDO_R);
    let zetaw = fmul(zeta, index.domain.omega);
    assert(pf.commitments.t_comm == commit_hide_s(polys[0], bt));
    assert forall|i: int| 0 <= i < COLUMNS
        implies pf.evals@[0].w@[i] == crate::poly::peval(#[trigger] polys[1 + i], zeta)
            && pf.evals@[1].w@[i] == crate::poly::peval(polys[1 + i], zetaw) by {
        if i == 0 { assert(polys[1] == w0); }
        if i == 1 { assert(polys[2] == w1); }
        if i == 2 { assert(polys[3] == w2); }
        if i == 3 { assert(polys[4] == w3); }
        if i == 4 { assert(polys[5] == w4); }
    }
}

/// What a successfully created proof certifies beyond its shape: the
/// witness commitments are hiding commitments to interpolants of the
/// witness columns, and the grand-product terminal condition held for the
/// lookup challenges that the proof's own commitments determine through
/// the transcript.
#[verifier::opaque]
pub open spec fn created_proof_facts(
    index: ConstraintSystem, witness: Seq<Vec<u64>>, blinds: Seq<u64>, pf: ProverProof,
) -> bool {
    &&& witness_comm_facts(index, witness, blinds, pf.commitments.w_comm@)
    &&& lookup_terminal_facts(index, witness, pf.commitments.w_comm@)
    &&& proof_evals_facts(index, pf, ps_s(index, witness))
}

/// Packaging of the grand-product terminal facts behind the existential/// Packaging of the grand-product terminal facts behind the existential
/// that the certification predicate states.
proof fn lemma_lookup_terminal_exists(
    index: ConstraintSystem, witness: Seq<Vec<u64>>, wcm: Seq<u64>,
    ps: Seq<u64>, h1: Seq<u64>, h2: Seq<u64>,
)
    requires
        forall|j: int| 0 <= j < index.domain.n
            ==> crate::poly::peval(ps, #[trigger] index.domain.pows@[j])
                == fmul((P - 1) as u64,
                    if j < index.public { witness[0]@[j] } else { 0 }),
        crate::sorting::sorted(h1 + h2.drop_first()),
        (h1 + h2.drop_first()).to_multiset()
            == (lw_spec(index, witness) + index.table1@).to_multiset(),
        crate::tbllkp::lkp_z(
            h1, h2, lw_spec(index, witness), index.table1@,
            chal_beta2(ps, wcm), chal_gamma2(ps, wcm), index.domain.n - 1,
        ) == 1,
    ensures lookup_terminal_facts(index, witness, wcm),
{
    reveal(lookup_terminal_facts);
}

/// The commitments of one proof.
#[derive(Clone)]
pub struct ProverCommitments {
    /// Commitments to the witness-column polynomials.
    pub w_comm: Vec<u64>,
    /// Commitment to the grand-product aggregation polynomial.
    pub z_comm: u64,
    /// Commitment to the quotient polynomial.
    pub t_comm: u64,
}

/// The evaluations of every committed polynomial at one challenge point.
#[derive(Clone)]
pub struct ProofEvaluations {
    /// Witness-column evaluations.
    pub w: Vec<u64>,
    /// Aggregation-polynomial evaluation.
    pub z: u64,
    /// Quotient-polynomial evaluation.
    pub t: u64,
    /// Linearization-polynomial evaluation.
    pub f: u64,
    /// Lookup selected-values evaluation.
    pub lw: u64,
    /// First sorted-window evaluation.
    pub h1: u64,
    /// Second sorted-window evaluation.
    pub h2: u64,
}

impl ProofEvaluations {
    /// Every evaluation is canonical and the witness record is complete.
    pub open spec fn wf(self) -> bool {
        &&& self.w@.len() == COLUMNS
        &&& all_in_field(self.w@)
        &&& in_field(self.z) && in_field(self.t) && in_field(self.f)
        &&& in_field(self.lw) && in_field(self.h1) && in_field(self.h2)
    }
}

/// The batched opening: all evaluations folded with the two opening
/// challenges.
#[derive(Clone)]
pub struct OpeningProof {
    /// The folded combination of every claimed evaluation pair.
    pub combined: u64,
}

/// The running combination of the first `i` evaluation pairs with the
/// opening challenges `v` and `u`.
pub open spec fn open_comb(l0: Seq<u64>, l1: Seq<u64>, v: u64, u: u64, i: int) -> u64
    decreases i,
{
    if i <= 0 {
        0
    } else {
        fadd(
            open_comb(l0, l1, v, u, i - 1),
            fmul(fpow(v, (i - 1) as nat), fadd(crate::poly::gi(l0, i - 1), fmul(u, crate::poly::gi(l1, i - 1)))),
        )
    }
}

/// Fold two aligned evaluation lists with the opening challenges.
pub fn combine_openings(l0: &Vec<u64>, l1: &Vec<u64>, v: u64, u: u64) -> (r: u64)
    requires
        all_in_field(l0@), all_in_field(l1@), in_field(v), in_field(u),
        l0@.len() == l1@.len(),
    ensures r == open_comb(l0@, l1@, v, u, l0@.len() as int), in_field(r),
{
    let mut acc: u64 = 0;
    let mut vpow: u64 = 1;
    let mut i: usize = 0;
    while i < l0.len()
        invariant
            i <= l0@.len(), l0@.len() == l1@.len(),
            all_in_field(l0@), all_in_field(l1@), in_field(v), in_field(u),
            in_field(acc), in_field(vpow),
            vpow == fpow(v, i as nat),
            acc == open_comb(l0@, l1@, v, u, i as int),
        decreases l0@.len() - i,
    {
        let term = mul_f(vpow, add_f(l0[i], mul_f(u, l1[i])));
        acc = add_f(acc, term);
        proof {
            assert(fpow(v, (i + 1) as nat) == fmul(v, fpow(v, i as nat)));
            crate::field::lemma_fmul_comm(v, fpow(v, i as nat));
        }
        vpow = mul_f(vpow, v);
        i = i + 1;
    }
    acc
}

/// A complete proof: commitments, the batched opening, the two evaluation
/// records (at the evaluation point and at its shift), the public inputs,
/// and the opaque recursive challenges passed through unchanged.
#[derive(Clone)]
pub struct ProverProof {
    /// The polynomial commitments.
    pub commitments: ProverCommitments,
    /// The batched opening combination.
    pub proof: OpeningProof,
    /// The evaluation records at `zeta` and `zeta * omega`, in that order.
    pub evals: Vec<ProofEvaluations>,
    /// The public part of the witness.
    pub public: Vec<u64>,
    /// Prior recursive challenges with their commitments, passed through.
    pub prev_challenges: Vec<(Vec<u64>, u64)>,
}

impl ProverProof {
    /// Structural well-formedness of a finished proof.
    pub open spec fn wf(self) -> bool {
        &&& self.commitments.w_comm@.len() == COLUMNS
        &&& all_in_field(self.commitments.w_comm@)
        &&& in_field(self.commitments.z_comm) && in_field(self.commitments.t_comm)
        &&& in_field(self.proof.combined)
        &&& self.evals@.len() == 2
        &&& self.evals@[0].wf() && self.evals@[1].wf()
        &&& all_in_field(self.public@)
    }

    /// The transcript's opening transitions: the first four challenges and
    /// the grand-product aggregation with its integrity check, committed.
    #[verifier::rlimit(100)]
    fn aggregation_stage(
        index: &ConstraintSystem,
        witness: &Vec<Vec<u64>>,
        blinds: &Vec<u64>,
        p: &Vec<u64>,
        wcomm: &Vec<u64>,
    ) -> (r: Result<(Sponge, RandomOracles, u64, Vec<u64>, crate::tbllkp::LookupEvals), ProofError>)
        requires
            index.wf(), witness_wf(witness@, index.domain.n as nat),
            blinds@.len() == COLUMNS + 5, all_in_field(blinds@),
            all_in_field(p@), p@ == ps_s(*index, witness@),
            pub_eval_facts(*index, witness@, p@),
            wcomm@.len() == COLUMNS, all_in_field(wcomm@),
            wcomm@ == wcomm_s(*index, witness@, blinds@),
        ensures
            r is Err ==> r->Err_0 == ProofError::ArgumentIntegrityFailed,
            (r is Err) <==> aggregation_fails(*index, witness@, blinds@),
            r is Ok ==> (r->Ok_0).3@ == run_lpoly(*index, witness@, blinds@),
            r is Ok ==> (r->Ok_0).2
                == commit_hide_s(run_lpoly(*index, witness@, blinds@), blinds@[COLUMNS + 3]),
            r is Ok ==> (r->Ok_0).0.state == mix_s(
                run_gamma2(*index, witness@, blinds@), (r->Ok_0).2,
            ),
            r is Ok ==> (r->Ok_0).0.wf() && (r->Ok_0).1.wf() && in_field((r->Ok_0).2)
                && all_in_field((r->Ok_0).3@) && (r->Ok_0).3@.len() <= index.domain.n + 4
                && (r->Ok_0).4.lw@.len() == index.domain.n - 1
                && (r->Ok_0).4.h1@.len() == index.domain.n
                && (r->Ok_0).4.h2@.len() == index.domain.n
                && all_in_field((r->Ok_0).4.lw@) && all_in_field((r->Ok_0).4.h1@)
                && all_in_field((r->Ok_0).4.h2@),
            r is Ok ==> {
                let evl = (r->Ok_0).4;
                &&& evl.lw@ == lw_spec(*index, witness@)
                &&& evl.h1@ == run_h1(*index, witness@)
                &&& evl.h2@ == run_h2(*index, witness@)
                &&& (r->Ok_0).1.beta2 == run_beta2(*index, witness@, blinds@)
                &&& (r->Ok_0).1.gamma2 == run_gamma2(*index, witness@, blinds@)
            },
            r is Ok ==> lookup_terminal_facts(*index, witness@, wcomm@),
    {
        let mut fq = Sponge::new();
        let pcomm = commit(p);
        fq.absorb(pcomm);
        fq.absorb_vec(wcomm);
        let mut oracles = RandomOracles::zero();
        oracles.beta = fq.challenge();
        oracles.gamma = fq.challenge();
        oracles.beta2 = fq.challenge();
        oracles.gamma2 = fq.challenge();

        let mut lkpevl = index.tbllkp_sortedset(witness);
        proof {
            reveal(run_h1);
            reveal(run_h2);
            assert(lkpevl.lw@ =~= lw_spec(*index, witness@));
            assert(lkpevl.h1@ == run_h1(*index, witness@));
            assert(lkpevl.h2@ == run_h2(*index, witness@));
            assert(oracles.beta2 == run_beta2(*index, witness@, blinds@));
            assert(oracles.gamma2 == run_gamma2(*index, witness@, blinds@));
        }
        let lpoly = match index.tbllkp_aggreg(
            &mut lkpevl,
            &oracles,
            (blinds[COLUMNS], blinds[COLUMNS + 1], blinds[COLUMNS + 2]),
        ) {
            Ok(v) => v,
            Err(e) => {
                proof {
                    assert(aggregation_fails(*index, witness@, blinds@)) by {
                        reveal(aggregation_fails);
                    }
                }
                return Err(e);
            },
        };
        proof {
            assert(!aggregation_fails(*index, witness@, blinds@)) by {
                reveal(aggregation_fails);
            }
            assert(lpoly@ == run_lpoly(*index, witness@, blinds@)) by {
                reveal(run_lpoly);
            }
            assert(lookup_terminal_facts(*index, witness@, wcomm@)) by {
                reveal(pub_eval_facts);
                lemma_lookup_terminal_exists(
                    *index, witness@, wcomm@, p@, lkpevl.h1@, lkpevl.h2@,
                );
            }
        }
        let z_comm = commit_hiding(&lpoly, blinds[COLUMNS + 3]);
        fq.absorb(z_comm);
        Ok((fq, oracles, z_comm, lpoly, lkpevl))
    }

    /// The quotient transitions: the combiner powers, both contribution
    /// families, and the exact division by the vanishing polynomial.
    #[verifier::rlimit(100)]
    fn quotient_stage(
        index: &ConstraintSystem,
        witness: &Vec<Vec<u64>>,
        blinds: &Vec<u64>,
        oracles: &RandomOracles,
        lkpevl: &crate::tbllkp::LookupEvals,
        lpoly: Vec<u64>,
        wpolys: &Vec<Vec<u64>>,
        p: &Vec<u64>,
    ) -> (r: Result<(Vec<u64>, crate::tbllkp::LookupPolys), ProofError>)
        requires
            index.wf(), oracles.wf(),
            witness_wf(witness@, index.domain.n as nat),
            blinds@.len() == COLUMNS + 5, all_in_field(blinds@),
            lkpevl.lw@.len() == index.domain.n - 1,
            lkpevl.h1@.len() == index.domain.n,
            lkpevl.h2@.len() == index.domain.n,
            all_in_field(lkpevl.lw@), all_in_field(lkpevl.h1@), all_in_field(lkpevl.h2@),
            lkpevl.lw@ == lw_spec(*index, witness@),
            lkpevl.h1@ == run_h1(*index, witness@),
            lkpevl.h2@ == run_h2(*index, witness@),
            all_in_field(lpoly@), lpoly@.len() <= index.domain.n + 4,
            lpoly@ == run_lpoly(*index, witness@, blinds@),
            oracles.beta2 == run_beta2(*index, witness@, blinds@),
            oracles.gamma2 == run_gamma2(*index, witness@, blinds@),
            oracles.alpha == run_alpha(*index, witness@, blinds@),
            wpolys@.len() == COLUMNS,
            forall|i: int| 0 <= i < COLUMNS ==> all_in_field((#[trigger] wpolys@[i])@)
                && wpolys@[i]@.len() <= index.domain.n,
            forall|i: int| 0 <= i < COLUMNS
                ==> (#[trigger] wpolys@[i])@ == wpoly_s(*index, witness@, i),
            all_in_field(p@), p@.len() <= index.domain.n,
            p@ == ps_s(*index, witness@),
        ensures
            r is Err ==> r->Err_0 == ProofError::PolyDivisionFailed,
            (r is Err) <==> division_fails(*index, witness@, blinds@),
            r is Ok ==> all_in_field((r->Ok_0).0@)
                && all_in_field((r->Ok_0).1.l@) && all_in_field((r->Ok_0).1.lw@)
                && all_in_field((r->Ok_0).1.h1@) && all_in_field((r->Ok_0).1.h2@),
    {
        let n = index.domain.n;
        let mut alphas: Vec<u64> = Vec::new();
        let mut ap: u64 = oracles.alpha;
        proof {
            crate::field::lemma_fmul_one(oracles.alpha);
            assert(fpow(oracles.alpha, 1nat) == fmul(oracles.alpha, fpow(oracles.alpha, 0nat)));
        }
        let mut ai: usize = 0;
        while ai < 4
            invariant
                ai <= 4, in_field(oracles.alpha), in_field(ap),
                ap == fpow(oracles.alpha, (ai + 1) as nat),
                alphas@.len() == ai,
                forall|t: int| 0 <= t < ai
                    ==> #[trigger] alphas@[t] == fpow(oracles.alpha, (t + 1) as nat)
                        && in_field(alphas@[t]),
            decreases 4 - ai,
        {
            alphas.push(ap);
            proof {
                assert(fpow(oracles.alpha, (ai + 2) as nat)
                    == fmul(oracles.alpha, fpow(oracles.alpha, (ai + 1) as nat)));
                crate::field::lemma_fmul_comm(oracles.alpha, ap);
            }
            ap = mul_f(ap, oracles.alpha);
            ai = ai + 1;
        }

        let lkppolys = index.lookup_polys(lkpevl, lpoly);
        let gen = Self::generic_quot(index, wpolys, p);
        proof {
            assert(alphas@[1] == fpow(run_alpha(*index, witness@, blinds@), 2));
            assert(alphas@[2] == fpow(run_alpha(*index, witness@, blinds@), 3));
            assert(alphas@[3] == fpow(run_alpha(*index, witness@, blinds@), 4));
        }
        let (lkpmain, bnd) = match index.tbllkp_quot(&lkppolys, oracles, &alphas) {
            Ok(v) => v,
            Err(e) => {
                proof {
                    assert(division_fails(*index, witness@, blinds@)) by {
                        reveal(division_fails);
                        reveal(gen_poly_s);
                    }
                }
                return Err(e);
            },
        };
        let numerator = padd(&gen, &lkpmain);
        let (tq, trem) = divide_by_vanishing(&numerator, n);
        proof {
            crate::poly::lemma_vdiv_exact_iff(numerator@, n as int, trem@);
        }
        if !is_zero_poly(&trem) {
            proof {
                assert(division_fails(*index, witness@, blinds@)) by {
                    reveal(division_fails);
                    reveal(gen_poly_s);
                }
            }
            return Err(ProofError::PolyDivisionFailed);
        }
        proof {
            assert(!division_fails(*index, witness@, blinds@)) by {
                reveal(division_fails);
                reveal(gen_poly_s);
            }
        }
        Ok((padd(&tq, &bnd), lkppolys))
    }

    /// Construct a proof from the witness against the circuit.  The witness
    /// shape is checked before any transcript work begins; the aggregation
    /// terminal condition and both exact divisions are checked before the
    /// affected commitment or opening is produced.  `blinds` supplies the
    /// proof's blinding randomness: one factor per witness-column
    /// commitment, the three coefficients of the aggregation blinding
    /// polynomial, and one factor each for the aggregation and quotient
    /// commitments.
    /// The negated interpolant of a full-length value column.
    fn neg_interp(index: &ConstraintSystem, vals: &Vec<u64>) -> (r: Vec<u64>)
        requires index.wf(), vals@.len() == index.domain.n, all_in_field(vals@),
        ensures
            r@ == crate::poly::pscale_s(
                (P - 1) as u64,
                crate::poly::newton_interp(index.domain.pows@, vals@, index.domain.n as int),
            ),
            all_in_field(r@), r@.len() <= index.domain.n,
            forall|j: int| 0 <= j < index.domain.n
                ==> crate::poly::peval(r@, #[trigger] index.domain.pows@[j])
                    == fmul((P - 1) as u64, vals@[j]),
    {
        let p_interp = interpolate(&index.domain.pows, vals);
        let r = pscale(P - 1, &p_interp);
        proof {
            assert forall|j: int| 0 <= j < index.domain.n
                implies crate::poly::peval(r@, #[trigger] index.domain.pows@[j])
                    == fmul((P - 1) as u64, vals@[j]) by {
                crate::poly::lemma_eval_pscale((P - 1) as u64, p_interp@, index.domain.pows@[j]);
            }
        }
        r
    }

    /// Build the negated public-input polynomial and the public value
    /// vector.
    fn public_poly(index: &ConstraintSystem, witness: &Vec<Vec<u64>>) -> (r: (Vec<u64>, Vec<u64>))
        requires index.wf(), witness_wf(witness@, index.domain.n as nat),
        ensures
            r.0@ == witness@[0]@.subrange(0, index.public as int),
            all_in_field(r.0@),
            all_in_field(r.1@), r.1@.len() <= index.domain.n,
            r.1@ == ps_s(*index, witness@),
            pub_eval_facts(*index, witness@, r.1@),
    {
        let n = index.domain.n;
        let mut pubvals: Vec<u64> = Vec::new();
        let mut pi: usize = 0;
        while pi < index.public
            invariant
                pi <= index.public, index.wf(), witness@.len() == COLUMNS,
                witness@[0]@.len() == n, n == index.domain.n,
                all_in_field(witness@[0]@),
                pubvals@ == witness@[0]@.subrange(0, pi as int),
            decreases index.public - pi,
        {
            pubvals.push(witness[0][pi]);
            proof {
                assert(pubvals@ =~= witness@[0]@.subrange(0, pi + 1));
            }
            pi = pi + 1;
        }
        let mut pubpad: Vec<u64> = Vec::new();
        let mut pj: usize = 0;
        while pj < n
            invariant
                pj <= n, index.wf(), n == index.domain.n, witness@.len() == COLUMNS,
                witness@[0]@.len() == n, all_in_field(witness@[0]@),
                pubvals@ == witness@[0]@.subrange(0, index.public as int),
                pubpad@.len() == pj, all_in_field(pubpad@),
                forall|j: int| 0 <= j < pj
                    ==> #[trigger] pubpad@[j]
                        == if j < index.public { witness@[0]@[j] } else { 0 },
            decreases n - pj,
        {
            if pj < index.public {
                pubpad.push(pubvals[pj]);
            } else {
                pubpad.push(0);
            }
            pj = pj + 1;
        }
        let p = Self::neg_interp(index, &pubpad);
        proof {
            reveal(ps_s);
            assert(pubpad@ =~= pub_padded_s(*index, witness@));
            assert(pub_eval_facts(*index, witness@, p@)) by {
                reveal(pub_eval_facts);
            }
        }
        (pubvals, p)
    }

    /// Interpolate every witness column and produce its hiding commitment.
    fn witness_polys(
        index: &ConstraintSystem,
        witness: &Vec<Vec<u64>>,
        blinds: &Vec<u64>,
    ) -> (r: (Vec<Vec<u64>>, Vec<u64>))
        requires
            index.wf(), witness_wf(witness@, index.domain.n as nat),
            blinds@.len() >= COLUMNS, all_in_field(blinds@),
        ensures
            r.0@.len() == COLUMNS, r.1@.len() == COLUMNS,
            forall|i: int| 0 <= i < COLUMNS ==> all_in_field((#[trigger] r.0@[i])@)
                && r.0@[i]@.len() <= index.domain.n,
            all_in_field(r.1@),
            forall|i: int| 0 <= i < COLUMNS
                ==> (#[trigger] r.0@[i])@ == wpoly_s(*index, witness@, i),
            r.1@ == wcomm_s(*index, witness@, blinds@),
            witness_comm_facts(*index, witness@, blinds@, r.1@),
    {
        let n = index.domain.n;
        let mut wpolys: Vec<Vec<u64>> = Vec::new();
        let mut wcomm: Vec<u64> = Vec::new();
        let mut wi: usize = 0;
        while wi < COLUMNS
            invariant
                wi <= COLUMNS, index.wf(), n == index.domain.n,
                witness_wf(witness@, n as nat),
                blinds@.len() >= COLUMNS, all_in_field(blinds@),
                wpolys@.len() == wi, wcomm@.len() == wi,
                forall|i: int| 0 <= i < wi ==> all_in_field((#[trigger] wpolys@[i])@)
                    && wpolys@[i]@.len() <= n,
                all_in_field(wcomm@),
                forall|i: int, j: int| 0 <= i < wi && 0 <= j < n
                    ==> crate::poly::peval((#[trigger] wpolys@[i])@, #[trigger] index.domain.pows@[j])
                        == witness@[i]@[j],
                forall|i: int| 0 <= i < wi
                    ==> #[trigger] wcomm@[i] == commit_hide_s(wpolys@[i]@, blinds@[i]),
                forall|i: int| 0 <= i < wi
                    ==> (#[trigger] wpolys@[i])@ == wpoly_s(*index, witness@, i),
            decreases COLUMNS - wi,
        {
            let wp = interpolate(&index.domain.pows, &witness[wi]);
            let c = commit_hiding(&wp, blinds[wi]);
            wpolys.push(wp);
            wcomm.push(c);
            proof {
                reveal(wpoly_s);
            }
            wi = wi + 1;
        }
        proof {
            reveal(wcomm_s);
            assert(wcomm@ =~= wcomm_s(*index, witness@, blinds@));
            assert(witness_comm_facts(*index, witness@, blinds@, wcomm@)) by {
                reveal(witness_comm_facts);
                let wps = wpolys@.map_values(|v: Vec<u64>| v@);
                assert(wps.len() == COLUMNS);
                assert forall|i: int, j: int| 0 <= i < COLUMNS && 0 <= j < index.domain.n
                    implies crate::poly::peval(
                        #[trigger] wps[i], #[trigger] index.domain.pows@[j],
                    ) == witness@[i]@[j] by {
                    assert(wps[i] == wpolys@[i]@);
                }
                assert forall|i: int| 0 <= i < COLUMNS
                    implies wcomm@[i] == commit_hide_s(#[trigger] wps[i], blinds@[i]) by {
                    assert(wps[i] == wpolys@[i]@);
                }
            }
        }
        (wpolys, wcomm)
    }

    /// The generic gate's contribution to the quotient numerator, with the
    /// public-input polynomial folded in.
    fn generic_quot(
        index: &ConstraintSystem,
        wpolys: &Vec<Vec<u64>>,
        p: &Vec<u64>,
    ) -> (r: Vec<u64>)
        requires
            index.wf(),
            wpolys@.len() == COLUMNS,
            forall|i: int| 0 <= i < COLUMNS ==> all_in_field((#[trigger] wpolys@[i])@)
                && wpolys@[i]@.len() <= index.domain.n,
            all_in_field(p@), p@.len() <= index.domain.n,
        ensures
            all_in_field(r@), r@.len() <= 3 * index.domain.n,
            r@ == crate::poly::padd_s(
                crate::poly::padd_s(
                    crate::poly::padd_s(
                        crate::poly::padd_s(
                            crate::poly::pmul_s(index.qlm@, wpolys@[0]@),
                            crate::poly::pmul_s(index.qrm@, wpolys@[1]@),
                        ),
                        crate::poly::pmul_s(index.qom@, wpolys@[2]@),
                    ),
                    crate::poly::pmul_s(
                        index.qmm@,
                        crate::poly::pmul_s(wpolys@[0]@, wpolys@[1]@),
                    ),
                ),
                crate::poly::padd_s(index.qcm@, p@),
            ),
    {
        let w01 = pmul(&wpolys[0], &wpolys[1]);
        padd(
            &padd(
                &padd(
                    &padd(&pmul(&index.qlm, &wpolys[0]), &pmul(&index.qrm, &wpolys[1])),
                    &pmul(&index.qom, &wpolys[2]),
                ),
                &pmul(&index.qmm, &w01),
            ),
            &padd(&index.qcm, p),
        )
    }

    /// The closing transitions: commit the quotient, derive the evaluation
    /// point, evaluate everything, linearize, derive the opening challenges,
    /// and assemble the immutable proof object.
    /// Build both evaluation records: every committed polynomial evaluated
    /// at the evaluation point and at its shift, with the linearization
    /// value in the `f` slot.
    #[verifier::rlimit(100)]
    fn eval_records(
        index: &ConstraintSystem,
        t: &Vec<u64>,
        wpolys: &Vec<Vec<u64>>,
        lkppolys: &crate::tbllkp::LookupPolys,
        zeta: u64,
        zetaw: u64,
    ) -> (r: (ProofEvaluations, ProofEvaluations))
        requires
            index.wf(), in_field(zeta), in_field(zetaw),
            all_in_field(t@),
            wpolys@.len() == COLUMNS,
            forall|i: int| 0 <= i < COLUMNS ==> all_in_field((#[trigger] wpolys@[i])@),
            all_in_field(lkppolys.l@), all_in_field(lkppolys.lw@),
            all_in_field(lkppolys.h1@), all_in_field(lkppolys.h2@),
        ensures
            r.0.wf(), r.1.wf(),
            forall|i: int| 0 <= i < COLUMNS
                ==> #[trigger] r.0.w@[i] == crate::poly::peval(wpolys@[i]@, zeta)
                    && r.1.w@[i] == crate::poly::peval(wpolys@[i]@, zetaw),
            r.0.t == crate::poly::peval(t@, zeta), r.1.t == crate::poly::peval(t@, zetaw),
            r.0.z == crate::poly::peval(lkppolys.l@, zeta),
            r.1.z == crate::poly::peval(lkppolys.l@, zetaw),
            r.0.lw == crate::poly::peval(lkppolys.lw@, zeta),
            r.1.lw == crate::poly::peval(lkppolys.lw@, zetaw),
            r.0.h1 == crate::poly::peval(lkppolys.h1@, zeta),
            r.1.h1 == crate::poly::peval(lkppolys.h1@, zetaw),
            r.0.h2 == crate::poly::peval(lkppolys.h2@, zeta),
            r.1.h2 == crate::poly::peval(lkppolys.h2@, zetaw),
            r.0.f == crate::poly::peval(
                lin_poly_s(
                    *index,
                    crate::poly::peval(wpolys@[0]@, zeta),
                    crate::poly::peval(wpolys@[1]@, zeta),
                    crate::poly::peval(wpolys@[2]@, zeta),
                ),
                zeta,
            ),
            r.1.f == crate::poly::peval(
                lin_poly_s(
                    *index,
                    crate::poly::peval(wpolys@[0]@, zeta),
                    crate::poly::peval(wpolys@[1]@, zeta),
                    crate::poly::peval(wpolys@[2]@, zeta),
                ),
                zetaw,
            ),
    {
        let mut ev0w: Vec<u64> = Vec::new();
        let mut ev1w: Vec<u64> = Vec::new();
        let mut ei: usize = 0;
        while ei < COLUMNS
            invariant
                ei <= COLUMNS, wpolys@.len() == COLUMNS,
                forall|i: int| 0 <= i < COLUMNS ==> all_in_field((#[trigger] wpolys@[i])@),
                in_field(zeta), in_field(zetaw),
                ev0w@.len() == ei, ev1w@.len() == ei,
                all_in_field(ev0w@), all_in_field(ev1w@),
                forall|i: int| 0 <= i < ei
                    ==> #[trigger] ev0w@[i] == crate::poly::peval(wpolys@[i]@, zeta)
                        && ev1w@[i] == crate::poly::peval(wpolys@[i]@, zetaw),
            decreases COLUMNS - ei,
        {
            ev0w.push(eval_poly(&wpolys[ei], zeta));
            ev1w.push(eval_poly(&wpolys[ei], zetaw));
            ei = ei + 1;
        }

        let f = padd(
            &padd(
                &padd(
                    &padd(&pscale(ev0w[0], &index.qlm), &pscale(ev0w[1], &index.qrm)),
                    &pscale(ev0w[2], &index.qom),
                ),
                &pscale(mul_f(ev0w[0], ev0w[1]), &index.qmm),
            ),
            &index.qcm,
        );

        let e0 = ProofEvaluations {
            w: ev0w,
            z: eval_poly(&lkppolys.l, zeta),
            t: eval_poly(t, zeta),
            f: eval_poly(&f, zeta),
            lw: eval_poly(&lkppolys.lw, zeta),
            h1: eval_poly(&lkppolys.h1, zeta),
            h2: eval_poly(&lkppolys.h2, zeta),
        };
        let e1 = ProofEvaluations {
            w: ev1w,
            z: eval_poly(&lkppolys.l, zetaw),
            t: eval_poly(t, zetaw),
            f: eval_poly(&f, zetaw),
            lw: eval_poly(&lkppolys.lw, zetaw),
            h1: eval_poly(&lkppolys.h1, zetaw),
            h2: eval_poly(&lkppolys.h2, zetaw),
        };

        (e0, e1)
    }

    #[verifier::rlimit(100)]
    fn finish(
        index: &ConstraintSystem,
        fq: Sponge,
        oracles: RandomOracles,
        wcomm: Vec<u64>,
        z_comm: u64,
        t: &Vec<u64>,
        p: &Vec<u64>,
        wpolys: &Vec<Vec<u64>>,
        lkppolys: &crate::tbllkp::LookupPolys,
        blind_t: u64,
        pubvals: Vec<u64>,
        prev_challenges: Vec<(Vec<u64>, u64)>,
    ) -> (r: ProverProof)
        requires
            index.wf(), fq.wf(), oracles.wf(), in_field(blind_t),
            wcomm@.len() == COLUMNS, all_in_field(wcomm@),
            in_field(z_comm),
            all_in_field(t@), all_in_field(p@),
            wpolys@.len() == COLUMNS,
            forall|i: int| 0 <= i < COLUMNS ==> all_in_field((#[trigger] wpolys@[i])@),
            all_in_field(lkppolys.l@), all_in_field(lkppolys.lw@),
            all_in_field(lkppolys.h1@), all_in_field(lkppolys.h2@),
            all_in_field(pubvals@),
            fq.state == perm_s(mix_s(chal_gamma2(p@, wcomm@), z_comm)),
        ensures
            r.wf(),
            r.public == pubvals,
            r.prev_challenges == prev_challenges,
            r.commitments.w_comm == wcomm,
            r.commitments.z_comm == z_comm,
            proof_evals_facts(*index, r, p@),
    {
        let mut fq = fq;
        let mut oracles = oracles;
        let t_comm = commit_hiding(t, blind_t);
        fq.absorb(t_comm);
        oracles.zeta_chal = fq.challenge();
        oracles.zeta = fold_chal(oracles.zeta_chal, ENDO_R);
        let zeta = oracles.zeta;
        let zetaw = mul_f(zeta, index.domain.omega);

        let (e0, e1) = Self::eval_records(index, t, wpolys, lkppolys, zeta, zetaw);

        let mut fr = Sponge::new();
        fr.absorb(fq.digest());
        let l0 = eval_list(&e0, eval_poly(p, zeta));
        let l1 = eval_list(&e1, eval_poly(p, zetaw));
        fr.absorb_vec(&l0);
        fr.absorb_vec(&l1);
        oracles.v_chal = fr.challenge();
        oracles.v = fold_chal(oracles.v_chal, ENDO_R);
        oracles.u_chal = fr.challenge();
        oracles.u = fold_chal(oracles.u_chal, ENDO_R);

        let combined = combine_openings(&l0, &l1, oracles.v, oracles.u);

        let mut evals: Vec<ProofEvaluations> = Vec::new();
        evals.push(e0);
        evals.push(e1);
        let pf = ProverProof {
            commitments: ProverCommitments { w_comm: wcomm, z_comm, t_comm },
            proof: OpeningProof { combined },
            evals,
            public: pubvals,
            prev_challenges,
        };
        proof {
            assert(crate::acceptance::chal_zeta_raw(pf, p@) == oracles.zeta_chal);
            lemma_proof_evals_facts(
                *index, pf, p@,
                t@, wpolys@[0]@, wpolys@[1]@, wpolys@[2]@, wpolys@[3]@, wpolys@[4]@,
                lkppolys.l@, lkppolys.lw@, lkppolys.h1@, lkppolys.h2@, blind_t,
            );
        }
        pf
    }

    /// The proof construction on a well-shaped witness, from witness
    /// binding to the assembled proof.
    #[verifier::rlimit(100)]
    fn build(
        witness: &Vec<Vec<u64>>,
        index: &ConstraintSystem,
        prev_challenges: Vec<(Vec<u64>, u64)>,
        blinds: &Vec<u64>,
    ) -> (r: Result<ProverProof, ProofError>)
        requires
            index.wf(), witness_wf(witness@, index.domain.n as nat),
            blinds@.len() == COLUMNS + 5, all_in_field(blinds@),
        ensures
            (r == Err::<ProverProof, ProofError>(ProofError::ArgumentIntegrityFailed))
                <==> aggregation_fails(*index, witness@, blinds@),
            (r == Err::<ProverProof, ProofError>(ProofError::PolyDivisionFailed))
                <==> (!aggregation_fails(*index, witness@, blinds@)
                    && division_fails(*index, witness@, blinds@)),
            (r is Ok) <==> (!aggregation_fails(*index, witness@, blinds@)
                && !division_fails(*index, witness@, blinds@)),
            r is Ok ==> (r->Ok_0).wf(),
            r is Ok ==> (r->Ok_0).public@
                == witness@[0]@.subrange(0, index.public as int),
            r is Ok ==> (r->Ok_0).prev_challenges == prev_challenges,
            r is Ok ==> created_proof_facts(*index, witness@, blinds@, r->Ok_0),
    {
        // 1. Public input polynomial and witness polynomials, committed.
        let (pubvals, p) = Self::public_poly(index, witness);
        let (wpolys, wcomm) = Self::witness_polys(index, witness, blinds);
        Self::run_argument(index, witness, blinds, prev_challenges, pubvals, &p, wpolys, wcomm)
    }

    /// The transcript-driven argument on bound witness data, from the first
    /// challenges to the assembled proof.
    #[verifier::rlimit(100)]
    fn run_argument(
        index: &ConstraintSystem,
        witness: &Vec<Vec<u64>>,
        blinds: &Vec<u64>,
        prev_challenges: Vec<(Vec<u64>, u64)>,
        pubvals: Vec<u64>,
        p: &Vec<u64>,
        wpolys: Vec<Vec<u64>>,
        wcomm: Vec<u64>,
    ) -> (r: Result<ProverProof, ProofError>)
        requires
            index.wf(), witness_wf(witness@, index.domain.n as nat),
            blinds@.len() == COLUMNS + 5, all_in_field(blinds@),
            all_in_field(pubvals@),
            all_in_field(p@), p@.len() <= index.domain.n,
            p@ == ps_s(*index, witness@),
            pub_eval_facts(*index, witness@, p@),
            wpolys@.len() == COLUMNS,
            forall|i: int| 0 <= i < COLUMNS ==> all_in_field((#[trigger] wpolys@[i])@)
                && wpolys@[i]@.len() <= index.domain.n,
            forall|i: int| 0 <= i < COLUMNS
                ==> (#[trigger] wpolys@[i])@ == wpoly_s(*index, witness@, i),
            wcomm@.len() == COLUMNS, all_in_field(wcomm@),
            wcomm@ == wcomm_s(*index, witness@, blinds@),
            witness_comm_facts(*index, witness@, blinds@, wcomm@),
        ensures
            (r == Err::<ProverProof, ProofError>(ProofError::ArgumentIntegrityFailed))
                <==> aggregation_fails(*index, witness@, blinds@),
            (r == Err::<ProverProof, ProofError>(ProofError::PolyDivisionFailed))
                <==> (!aggregation_fails(*index, witness@, blinds@)
                    && division_fails(*index, witness@, blinds@)),
            (r is Ok) <==> (!aggregation_fails(*index, witness@, blinds@)
                && !division_fails(*index, witness@, blinds@)),
            r is Ok ==> (r->Ok_0).wf(),
            r is Ok ==> (r->Ok_0).public == pubvals,
            r is Ok ==> (r->Ok_0).prev_challenges == prev_challenges,
            r is Ok ==> created_proof_facts(*index, witness@, blinds@, r->Ok_0),
    {
        let (fq, oracles, z_comm, t, lkppolys) =
            match Self::argument_core(index, witness, blinds, p, &wpolys, &wcomm) {
                Ok(v) => v,
                Err(e) => {
                    return Err(e);
                },
            };

        // The closing transitions, from the quotient commitment to the
        // assembled proof.
        let pf = Self::finish(
            index, fq, oracles, wcomm, z_comm, &t, p, &wpolys, &lkppolys,
            blinds[COLUMNS + 4], pubvals, prev_challenges,
        );
        proof {
            assert(created_proof_facts(*index, witness@, blinds@, pf)) by {
                reveal(created_proof_facts);
                assert(pf.commitments.w_comm@ == wcomm@);
            }
        }
        Ok(pf)
    }

    /// The commit-challenge-respond core: the first challenges, the
    /// grand-product aggregation with its integrity check, the combiner,
    /// and the quotient with its exact divisions.
    #[verifier::rlimit(100)]
    fn argument_core(
        index: &ConstraintSystem,
        witness: &Vec<Vec<u64>>,
        blinds: &Vec<u64>,
        p: &Vec<u64>,
        wpolys: &Vec<Vec<u64>>,
        wcomm: &Vec<u64>,
    ) -> (r: Result<(Sponge, RandomOracles, u64, Vec<u64>, crate::tbllkp::LookupPolys), ProofError>)
        requires
            index.wf(), witness_wf(witness@, index.domain.n as nat),
            blinds@.len() == COLUMNS + 5, all_in_field(blinds@),
            all_in_field(p@), p@.len() <= index.domain.n,
            p@ == ps_s(*index, witness@),
            pub_eval_facts(*index, witness@, p@),
            wpolys@.len() == COLUMNS,
            forall|i: int| 0 <= i < COLUMNS ==> all_in_field((#[trigger] wpolys@[i])@)
                && wpolys@[i]@.len() <= index.domain.n,
            forall|i: int| 0 <= i < COLUMNS
                ==> (#[trigger] wpolys@[i])@ == wpoly_s(*index, witness@, i),
            wcomm@.len() == COLUMNS, all_in_field(wcomm@),
            wcomm@ == wcomm_s(*index, witness@, blinds@),
        ensures
            (r == Err::<(Sponge, RandomOracles, u64, Vec<u64>, crate::tbllkp::LookupPolys),
                ProofError>(ProofError::ArgumentIntegrityFailed))
                <==> aggregation_fails(*index, witness@, blinds@),
            (r == Err::<(Sponge, RandomOracles, u64, Vec<u64>, crate::tbllkp::LookupPolys),
                ProofError>(ProofError::PolyDivisionFailed))
                <==> (!aggregation_fails(*index, witness@, blinds@)
                    && division_fails(*index, witness@, blinds@)),
            (r is Ok) <==> (!aggregation_fails(*index, witness@, blinds@)
                && !division_fails(*index, witness@, blinds@)),
            r is Ok ==> (r->Ok_0).0.wf() && (r->Ok_0).1.wf() && in_field((r->Ok_0).2)
                && all_in_field((r->Ok_0).3@)
                && all_in_field((r->Ok_0).4.l@) && all_in_field((r->Ok_0).4.lw@)
                && all_in_field((r->Ok_0).4.h1@) && all_in_field((r->Ok_0).4.h2@),
            r is Ok ==> lookup_terminal_facts(*index, witness@, wcomm@),
            r is Ok ==> (r->Ok_0).0.state
                == perm_s(mix_s(run_gamma2(*index, witness@, blinds@), (r->Ok_0).2)),
    {
        // The first challenges and the grand-product aggregation.
        let (fq, oracles, z_comm, lpoly, lkpevl) =
            match Self::aggregation_stage(index, witness, blinds, p, wcomm) {
                Ok(v) => v,
                Err(e) => {
                    return Err(e);
                },
            };
        let mut fq = fq;
        let mut oracles = oracles;
        oracles.alpha_chal = fq.challenge();
        oracles.alpha = fold_chal(oracles.alpha_chal, ENDO_R);
        proof {
            assert(oracles.alpha == run_alpha(*index, witness@, blinds@)) by {
                reveal(run_alpha);
            }
        }

        // The quotient, by exact division.
        let (t, lkppolys) =
            match Self::quotient_stage(
                index, witness, blinds, &oracles, &lkpevl, lpoly, wpolys, p,
            ) {
                Ok(v) => v,
                Err(e) => {
                    return Err(e);
                },
            };
        Ok((fq, oracles, z_comm, t, lkppolys))
    }

    /// Construct a proof from the witness against the circuit.  The witness
    /// shape is checked before any transcript work begins; then the
    /// construction succeeds exactly when the grand-product terminal
    /// condition holds and every required division is exact, for the
    /// challenges this witness and blinding determine.  `blinds` supplies
    /// the proof's blinding randomness: one factor per witness-column
    /// commitment, the three coefficients of the aggregation blinding
    /// polynomial, and one factor each for the aggregation and quotient
    /// commitments.
    pub fn create_with_blinds(
        witness: &Vec<Vec<u64>>,
        index: &ConstraintSystem,
        prev_challenges: Vec<(Vec<u64>, u64)>,
        blinds: &Vec<u64>,
    ) -> (r: Result<ProverProof, ProofError>)
        requires
            index.wf(),
            blinds@.len() == COLUMNS + 5, all_in_field(blinds@),
            forall|i: int| 0 <= i < witness@.len() ==> all_in_field((#[trigger] witness@[i])@),
        ensures
            (r == Err::<ProverProof, ProofError>(ProofError::WitnessShapeMismatch))
                <==> !witness_wf(witness@, index.domain.n as nat),
            witness_wf(witness@, index.domain.n as nat) ==> (
                (r == Err::<ProverProof, ProofError>(ProofError::ArgumentIntegrityFailed))
                    <==> aggregation_fails(*index, witness@, blinds@)
            ),
            witness_wf(witness@, index.domain.n as nat) ==> (
                (r == Err::<ProverProof, ProofError>(ProofError::PolyDivisionFailed))
                    <==> (!aggregation_fails(*index, witness@, blinds@)
                        && division_fails(*index, witness@, blinds@))
            ),
            witness_wf(witness@, index.domain.n as nat) ==> (
                (r is Ok) <==> (!aggregation_fails(*index, witness@, blinds@)
                    && !division_fails(*index, witness@, blinds@))
            ),
            r is Ok ==> (r->Ok_0).wf(),
            r is Ok ==> (r->Ok_0).public@
                == witness@[0]@.subrange(0, index.public as int),
            r is Ok ==> (r->Ok_0).prev_challenges == prev_challenges,
            r is Ok ==> created_proof_facts(*index, witness@, blinds@, r->Ok_0),
    {
        let n = index.domain.n;
        if witness.len() != COLUMNS {
            return Err(ProofError::WitnessShapeMismatch);
        }
        let mut ci: usize = 0;
        while ci < COLUMNS
            invariant
                ci <= COLUMNS, witness@.len() == COLUMNS, n == index.domain.n,
                forall|i: int| 0 <= i < ci ==> (#[trigger] witness@[i])@.len() == n,
            decreases COLUMNS - ci,
        {
            if witness[ci].len() != n {
                return Err(ProofError::WitnessShapeMismatch);
            }
            ci = ci + 1;
        }
        Self::build(witness, index, prev_challenges, blinds)
    }

    /// Construct a proof, drawing the blinding randomness from the
    /// thread-local generator.    /// Construct a proof, drawing the blinding randomness from the
    /// thread-local generator.  All the logic is in `create_with_blinds`,
    /// which is verified for every blinding value.
    pub fn create(
        witness: &Vec<Vec<u64>>,
        index: &ConstraintSystem,
        prev_challenges: Vec<(Vec<u64>, u64)>,
    ) -> (r: Result<ProverProof, ProofError>)
        requires
            index.wf(),
            forall|i: int| 0 <= i < witness@.len() ==> all_in_field((#[trigger] witness@[i])@),
        ensures
            (r == Err::<ProverProof, ProofError>(ProofError::WitnessShapeMismatch))
                <==> !witness_wf(witness@, index.domain.n as nat),
            r is Ok ==> (r->Ok_0).wf(),
            r is Ok ==> (r->Ok_0).public@
                == witness@[0]@.subrange(0, index.public as int),
            r is Ok ==> (r->Ok_0).prev_challenges == prev_challenges,
            r is Ok ==> exists|bl: Seq<u64>|
                #[trigger] created_proof_facts(*index, witness@, bl, r->Ok_0),
    {
        let mut rng = crate::rng::new_rng();
        let blinds = crate::rng::random_field_vec(&mut rng, COLUMNS + 5);
        let r = Self::create_with_blinds(witness, index, prev_challenges, &blinds);
        proof {
            if r is Ok {
                assert(created_proof_facts(*index, witness@, blinds@, r->Ok_0));
            }
        }
        r
    }
}

/// The evaluation list of one record, in the proof's fixed opening order.
pub open spec fn eval_list_s(e: ProofEvaluations, p_eval: u64) -> Seq<u64> {
    seq![p_eval] + e.w@ + seq![e.z, e.f, e.t, e.lw, e.h1, e.h2]
}

/// The fixed absorption and opening order of one evaluation record: the
/// public evaluation first, then witness columns, aggregation,
/// linearization, quotient, and the lookup columns.
pub fn eval_list(e: &ProofEvaluations, p_eval: u64) -> (r: Vec<u64>)
    requires e.wf(), in_field(p_eval),
    ensures
        r@ == eval_list_s(*e, p_eval),
        r@.len() == COLUMNS + 7, all_in_field(r@),
{
    let mut r: Vec<u64> = Vec::new();
    r.push(p_eval);
    let mut i: usize = 0;
    while i < COLUMNS
        invariant
            i <= COLUMNS, e.wf(), in_field(p_eval),
            r@.len() == 1 + i, all_in_field(r@),
            r@[0] == p_eval,
            forall|t: int| 0 <= t < i ==> r@[1 + t] == e.w@[t],
        decreases COLUMNS - i,
    {
        r.push(e.w[i]);
        i = i + 1;
    }
    r.push(e.z);
    r.push(e.f);
    r.push(e.t);
    r.push(e.lw);
    r.push(e.h1);
    r.push(e.h2);
    proof {
        assert(r@ =~= eval_list_s(*e, p_eval));
    }
    r
}

} // verus!
