//! Acceptance check for produced proofs.  The verifier side proper is not
//! part of this core; this check recomputes the Fiat-Shamir challenges from
//! the proof's commitments, evaluates the circuit's own polynomials at the
//! evaluation point, and tests the quotient identity, the linearization
//! evaluation and the batched opening combination against the proof's
//! claimed evaluations.
use vstd::prelude::*;

verus! {

use crate::circuit::ConstraintSystem;
use crate::field::{
    all_in_field, fadd, finv, fmul, fpow, fsub, in_field, P, add_f, inv_f, mul_f, pow_f,
    sub_f,
};
use crate::poly::{eval_poly, interpolate, peval, pscale};
use crate::prover::{eval_list_s, open_comb, ProofEvaluations, ProverProof, ENDO_R};
use crate::transcript::{fold_chal, fold_chal_s, mix_all_s, mix_s, perm_s, Sponge};

/// The quotient identity and the linearization evaluation at the evaluation
/// point, tested against the claimed evaluations.
#[verifier::opaque]
pub open spec fn identity_checks(
    index: ConstraintSystem, e0: ProofEvaluations, e1: ProofEvaluations,
    beta2: u64, gamma2: u64, alpha: u64, zeta: u64, p_z: u64,
) -> bool {
    let n = index.domain.n;
    let zetaw = fmul(zeta, index.domain.omega);
    let vanish = fsub(fpow(zeta, n as nat), 1);
    let b1 = fadd(1, beta2);
    let gb = fmul(b1, gamma2);
    let tbl_z = peval(index.tablem@, zeta);
    let tbl_zw = peval(index.tablem@, zetaw);
    let gen_z = fadd(
        fadd(
            fadd(
                fadd(
                    fmul(peval(index.qlm@, zeta), e0.w@[0]),
                    fmul(peval(index.qrm@, zeta), e0.w@[1]),
                ),
                fmul(peval(index.qom@, zeta), e0.w@[2]),
            ),
            fmul(peval(index.qmm@, zeta), fmul(e0.w@[0], e0.w@[1])),
        ),
        fadd(peval(index.qcm@, zeta), p_z),
    );
    let left = fmul(
        fmul(fmul(b1, e0.z), fadd(gamma2, e0.lw)),
        fadd(fadd(gb, tbl_z), fmul(beta2, tbl_zw)),
    );
    let right = fmul(
        fmul(e1.z, fadd(fadd(gb, e0.h1), fmul(beta2, e1.h1))),
        fadd(fadd(gb, e0.h2), fmul(beta2, e1.h2)),
    );
    let lkp_z = fmul(
        fpow(alpha, 1),
        fmul(fsub(left, right), fsub(zeta, index.domain.pows@[n - 1])),
    );
    let bnd_z = fadd(
        fmul(fmul(fpow(alpha, 2), fsub(e0.z, 1)), finv(fsub(zeta, 1))),
        fmul(
            fadd(fmul(fpow(alpha, 3), fsub(e0.z, 1)), fmul(fpow(alpha, 4), fsub(e0.h1, e1.h2))),
            finv(fsub(zeta, index.domain.pows@[n - 1])),
        ),
    );
    let f_z = fadd(
        fadd(
            fadd(
                fadd(
                    fmul(e0.w@[0], peval(index.qlm@, zeta)),
                    fmul(e0.w@[1], peval(index.qrm@, zeta)),
                ),
                fmul(e0.w@[2], peval(index.qom@, zeta)),
            ),
            fmul(fmul(e0.w@[0], e0.w@[1]), peval(index.qmm@, zeta)),
        ),
        peval(index.qcm@, zeta),
    );
    &&& fmul(e0.t, vanish) == fadd(fadd(gen_z, lkp_z), fmul(bnd_z, vanish))
    &&& e0.f == f_z
}

/// The raw combiner challenge, drawn after the aggregation commitment.
pub open spec fn chal_alpha_raw(pf: ProverProof, ps: Seq<u64>) -> u64 {
    perm_s(mix_s(crate::prover::chal_gamma2(ps, pf.commitments.w_comm@), pf.commitments.z_comm))
}

/// The raw evaluation-point challenge, drawn after the quotient commitment.
pub open spec fn chal_zeta_raw(pf: ProverProof, ps: Seq<u64>) -> u64 {
    perm_s(mix_s(chal_alpha_raw(pf, ps), pf.commitments.t_comm))
}

/// The state of the evaluation lane after it has absorbed the commitment
/// lane's digest and both evaluation lists.
pub open spec fn fr_state(zeta_chal: u64, l0: Seq<u64>, l1: Seq<u64>) -> u64 {
    mix_all_s(mix_all_s(mix_s(0, zeta_chal), l0), l1)
}

/// The complete acceptance predicate, over a polynomial `ps` standing for
/// the negated public-input interpolant.  Challenges are recomputed from
/// the commitments exactly as the prover derived them; the identity and
/// opening checks then compare the claimed evaluations.
#[verifier::opaque]
pub open spec fn accepts(index: ConstraintSystem, pf: ProverProof, ps: Seq<u64>) -> bool {
    let e0 = pf.evals@[0];
    let e1 = pf.evals@[1];
    let beta2 = crate::prover::chal_beta2(ps, pf.commitments.w_comm@);
    let gamma2 = crate::prover::chal_gamma2(ps, pf.commitments.w_comm@);
    let alpha = fold_chal_s(chal_alpha_raw(pf, ps), ENDO_R);
    let zeta = fold_chal_s(chal_zeta_raw(pf, ps), ENDO_R);
    let zetaw = fmul(zeta, index.domain.omega);
    let l0 = eval_list_s(e0, peval(ps, zeta));
    let l1 = eval_list_s(e1, peval(ps, zetaw));
    let v_chal = perm_s(fr_state(chal_zeta_raw(pf, ps), l0, l1));
    let v = fold_chal_s(v_chal, ENDO_R);
    let u = fold_chal_s(perm_s(v_chal), ENDO_R);
    &&& identity_checks(index, e0, e1, beta2, gamma2, alpha, zeta, peval(ps, zeta))
    &&& pf.proof.combined == open_comb(l0, l1, v, u, l0.len() as int)
}

/// Recompute the four commitment-lane challenges of a proof.
fn derive_commitment_challenges(pf: &ProverProof, p: &Vec<u64>) -> (r: (u64, u64, u64, u64))
    requires pf.wf(), all_in_field(p@),
    ensures
        r.0 == crate::prover::chal_beta2(p@, pf.commitments.w_comm@),
        r.1 == crate::prover::chal_gamma2(p@, pf.commitments.w_comm@),
        r.2 == chal_alpha_raw(*pf, p@),
        r.3 == chal_zeta_raw(*pf, p@),
        in_field(r.0), in_field(r.1), in_field(r.2), in_field(r.3),
{
    let mut fq = Sponge::new();
    let pcomm = crate::prover::commit(p);
    fq.absorb(pcomm);
    fq.absorb_vec(&pf.commitments.w_comm);
    let _beta = fq.challenge();
    let _gamma = fq.challenge();
    let beta2 = fq.challenge();
    let gamma2 = fq.challenge();
    fq.absorb(pf.commitments.z_comm);
    let alpha_chal = fq.challenge();
    fq.absorb(pf.commitments.t_comm);
    let zeta_chal = fq.challenge();
    (beta2, gamma2, alpha_chal, zeta_chal)
}

/// Recompute the folded opening challenges of a proof.
fn derive_opening_challenges(zeta_chal: u64, l0: &Vec<u64>, l1: &Vec<u64>) -> (r: (u64, u64))
    requires in_field(zeta_chal), all_in_field(l0@), all_in_field(l1@),
    ensures
        r.0 == fold_chal_s(perm_s(fr_state(zeta_chal, l0@, l1@)), ENDO_R),
        r.1 == fold_chal_s(perm_s(perm_s(fr_state(zeta_chal, l0@, l1@))), ENDO_R),
        in_field(r.0), in_field(r.1),
{
    let mut fr = Sponge::new();
    fr.absorb(zeta_chal);
    fr.absorb_vec(l0);
    fr.absorb_vec(l1);
    let v_chal = fr.challenge();
    let v = fold_chal(v_chal, ENDO_R);
    let u_chal = fr.challenge();
    let u = fold_chal(u_chal, ENDO_R);
    (v, u)
}

/// Evaluate the identity checks on concrete challenge values.
#[verifier::rlimit(100)]
fn identity_checks_exec(
    index: &ConstraintSystem, e0: &ProofEvaluations, e1: &ProofEvaluations,
    beta2: u64, gamma2: u64, alpha: u64, zeta: u64, p_z: u64,
) -> (r: bool)
    requires
        index.wf(), e0.wf(), e1.wf(),
        in_field(beta2), in_field(gamma2), in_field(alpha), in_field(zeta), in_field(p_z),
    ensures r == identity_checks(*index, *e0, *e1, beta2, gamma2, alpha, zeta, p_z),
{
    proof {
        reveal(identity_checks);
    }
    let n = index.domain.n;
    let zetaw = mul_f(zeta, index.domain.omega);
    let nv = pow_f(zeta, n as u64);
    let vanish = sub_f(nv, 1);
    let b1 = add_f(1, beta2);
    let gb = mul_f(b1, gamma2);
    let tbl_z = eval_poly(&index.tablem, zeta);
    let tbl_zw = eval_poly(&index.tablem, zetaw);
    let ql_z = eval_poly(&index.qlm, zeta);
    let qr_z = eval_poly(&index.qrm, zeta);
    let qo_z = eval_poly(&index.qom, zeta);
    let qm_z = eval_poly(&index.qmm, zeta);
    let qc_z = eval_poly(&index.qcm, zeta);
    let gen_z = add_f(
        add_f(
            add_f(
                add_f(mul_f(ql_z, e0.w[0]), mul_f(qr_z, e0.w[1])),
                mul_f(qo_z, e0.w[2]),
            ),
            mul_f(qm_z, mul_f(e0.w[0], e0.w[1])),
        ),
        add_f(qc_z, p_z),
    );
    let left = mul_f(
        mul_f(mul_f(b1, e0.z), add_f(gamma2, e0.lw)),
        add_f(add_f(gb, tbl_z), mul_f(beta2, tbl_zw)),
    );
    let right = mul_f(
        mul_f(e1.z, add_f(add_f(gb, e0.h1), mul_f(beta2, e1.h1))),
        add_f(add_f(gb, e0.h2), mul_f(beta2, e1.h2)),
    );
    let cnm1 = index.domain.pows[n - 1];
    let a1 = pow_f(alpha, 1);
    let a2 = pow_f(alpha, 2);
    let a3 = pow_f(alpha, 3);
    let a4 = pow_f(alpha, 4);
    let lkp_term = mul_f(a1, mul_f(sub_f(left, right), sub_f(zeta, cnm1)));
    let bnd_z = add_f(
        mul_f(mul_f(a2, sub_f(e0.z, 1)), inv_f(sub_f(zeta, 1))),
        mul_f(
            add_f(mul_f(a3, sub_f(e0.z, 1)), mul_f(a4, sub_f(e0.h1, e1.h2))),
            inv_f(sub_f(zeta, cnm1)),
        ),
    );
    let f_z = add_f(
        add_f(
            add_f(
                add_f(mul_f(e0.w[0], ql_z), mul_f(e0.w[1], qr_z)),
                mul_f(e0.w[2], qo_z),
            ),
            mul_f(mul_f(e0.w[0], e0.w[1]), qm_z),
        ),
        qc_z,
    );
    let check1 = mul_f(e0.t, vanish) == add_f(add_f(gen_z, lkp_term), mul_f(bnd_z, vanish));
    let check2 = e0.f == f_z;
    check1 && check2
}

/// Evaluate the acceptance predicate for a given public-input polynomial.
#[verifier::rlimit(100)]
fn accepts_exec(index: &ConstraintSystem, pf: &ProverProof, p: &Vec<u64>) -> (r: bool)
    requires index.wf(), pf.wf(), all_in_field(p@),
    ensures r == accepts(*index, *pf, p@),
{
    let e0 = &pf.evals[0];
    let e1 = &pf.evals[1];
    let (beta2, gamma2, alpha_chal, zeta_chal) = derive_commitment_challenges(pf, p);
    let alpha = fold_chal(alpha_chal, ENDO_R);
    let zeta = fold_chal(zeta_chal, ENDO_R);
    let zetaw = mul_f(zeta, index.domain.omega);

    let p_z = eval_poly(p, zeta);
    let p_zw = eval_poly(p, zetaw);
    let l0 = crate::prover::eval_list(e0, p_z);
    let l1 = crate::prover::eval_list(e1, p_zw);
    let (v, u) = derive_opening_challenges(zeta_chal, &l0, &l1);
    let checks = identity_checks_exec(index, e0, e1, beta2, gamma2, alpha, zeta, p_z);
    let comb = crate::prover::combine_openings(&l0, &l1, v, u);
    let check3 = pf.proof.combined == comb;
    let result = checks && check3;
    proof {
        assert(result == accepts(*index, *pf, p@)) by {
            reveal(accepts);
            assert(pf.evals@[0] == *e0 && pf.evals@[1] == *e1);
        }
    }
    result
}

/// The negated interpolant of a proof's public inputs, padded with zero
/// rows to the domain length: the definite polynomial the acceptance
/// predicate is evaluated over.
pub open spec fn public_interp_s(index: ConstraintSystem, publics: Seq<u64>) -> Seq<u64> {
    crate::poly::pscale_s(
        (P - 1) as u64,
        crate::poly::newton_interp(
            index.domain.pows@,
            Seq::new(index.domain.n as nat,
                |j: int| if j < publics.len() { publics[j] } else { 0 }),
            index.domain.n as int,
        ),
    )
}

/// Check a proof against the circuit: the acceptance predicate's value for
/// the interpolant of the proof's negated public inputs.
pub fn verify(index: &ConstraintSystem, pf: &ProverProof) -> (r: bool)
    requires index.wf(), pf.wf(), pf.public@.len() <= index.domain.n,
    ensures r == accepts(*index, *pf, public_interp_s(*index, pf.public@)),
{
    let n = index.domain.n;
    let mut pubpad: Vec<u64> = Vec::new();
    let mut pj: usize = 0;
    while pj < n
        invariant
            pj <= n, index.wf(), pf.wf(), pf.public@.len() <= n, n == index.domain.n,
            pubpad@.len() == pj, all_in_field(pubpad@),
            forall|j: int| 0 <= j < pj
                ==> #[trigger] pubpad@[j] == if j < pf.public@.len() { pf.public@[j] } else { 0 },
        decreases n - pj,
    {
        if pj < pf.public.len() {
            pubpad.push(pf.public[pj]);
        } else {
            pubpad.push(0);
        }
        pj = pj + 1;
    }
    let p_interp = interpolate(&index.domain.pows, &pubpad);
    let p = pscale(P - 1, &p_interp);
    proof {
        assert(pubpad@ =~= Seq::new(index.domain.n as nat,
            |j: int| if j < pf.public@.len() { pf.public@[j] } else { 0 }));
        assert(p@ == public_interp_s(*index, pf.public@));
    }
    accepts_exec(index, pf, &p)
}

} // verus!
