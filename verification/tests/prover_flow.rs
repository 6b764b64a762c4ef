use plonk_prover::acceptance::verify;
use plonk_prover::circuit::ConstraintSystem;
use plonk_prover::domain::Domain;
use plonk_prover::errors::ProofError;
use plonk_prover::prover::ProverProof;
use plonk_prover::transcript::Sponge;

fn small_cs() -> ConstraintSystem {
    let domain = Domain::new(4, 16).unwrap();
    ConstraintSystem::new(
        domain,
        1,
        vec![1, 0, 0],
        vec![0, 10, 20, 30],
        vec![1, 0, 0, 0],
        vec![0, 0, 0, 0],
        vec![0, 0, 0, 0],
        vec![0, 0, 0, 0],
        vec![0, 0, 0, 0],
    )
    .unwrap()
}

fn witness() -> Vec<Vec<u64>> {
    vec![
        vec![5, 0, 0, 0],
        vec![0, 0, 0, 0],
        vec![0, 0, 0, 0],
        vec![0, 0, 0, 0],
        vec![10, 99, 98, 97],
    ]
}

fn blinds() -> Vec<u64> {
    vec![11, 22, 33, 44, 55, 66, 77, 88, 99, 111]
}

#[test]
fn witness_satisfies_the_circuit() {
    let cs = small_cs();
    assert!(cs.verify_witness(&witness()));
    let mut bad = witness();
    bad[0][1] = 3;
    // an unconstrained row stays fine
    assert!(cs.verify_witness(&bad));
    // a circuit with a nonzero constant selector on a row cannot be
    // satisfied there
    let d = Domain::new(4, 16).unwrap();
    let cs2 = ConstraintSystem::new(
        d,
        1,
        vec![1, 0, 0],
        vec![0, 10, 20, 30],
        vec![1, 0, 0, 0],
        vec![0, 0, 0, 0],
        vec![0, 0, 0, 0],
        vec![0, 0, 0, 0],
        vec![0, 1, 0, 0],
    )
    .unwrap();
    assert!(!cs2.verify_witness(&witness()));
}

#[test]
fn create_rejects_a_misshapen_witness() {
    let cs = small_cs();
    let mut w = witness();
    w[2] = vec![0, 0, 0];
    let r = ProverProof::create_with_blinds(&w, &cs, vec![], &blinds());
    assert!(matches!(r, Err(ProofError::WitnessShapeMismatch)));
    let w2 = vec![vec![0, 0, 0, 0]; 4];
    let r2 = ProverProof::create_with_blinds(&w2, &cs, vec![], &blinds());
    assert!(matches!(r2, Err(ProofError::WitnessShapeMismatch)));
}

#[test]
fn create_rejects_an_unsatisfied_circuit_with_a_division_failure() {
    // a nonzero constant selector on a row makes the generic identity fail
    // there, so the quotient numerator does not vanish on the domain and
    // the vanishing division leaves a remainder
    let d = Domain::new(4, 16).unwrap();
    let cs = ConstraintSystem::new(
        d,
        1,
        vec![1, 0, 0],
        vec![0, 10, 20, 30],
        vec![1, 0, 0, 0],
        vec![0, 0, 0, 0],
        vec![0, 0, 0, 0],
        vec![0, 0, 0, 0],
        vec![0, 1, 0, 0],
    )
    .unwrap();
    let r = ProverProof::create_with_blinds(&witness(), &cs, vec![], &blinds());
    assert!(matches!(r, Err(ProofError::PolyDivisionFailed)));
}

#[test]
fn create_builds_a_proof_and_exposes_the_public_inputs() {
    let cs = small_cs();
    let pf = ProverProof::create_with_blinds(&witness(), &cs, vec![], &blinds()).unwrap();
    assert_eq!(pf.public, vec![5]);
    assert_eq!(pf.commitments.w_comm.len(), 5);
    assert_eq!(pf.evals.len(), 2);
    assert_eq!(pf.evals[0].w.len(), 5);
}

#[test]
fn proof_construction_is_deterministic_for_fixed_randomness() {
    let cs = small_cs();
    let a = ProverProof::create_with_blinds(&witness(), &cs, vec![], &blinds()).unwrap();
    let b = ProverProof::create_with_blinds(&witness(), &cs, vec![], &blinds()).unwrap();
    assert_eq!(a.commitments.w_comm, b.commitments.w_comm);
    assert_eq!(a.commitments.z_comm, b.commitments.z_comm);
    assert_eq!(a.commitments.t_comm, b.commitments.t_comm);
    assert_eq!(a.proof.combined, b.proof.combined);
    assert_eq!(a.evals[0].z, b.evals[0].z);
    assert_eq!(a.evals[1].t, b.evals[1].t);
}

#[test]
fn changing_an_earlier_commitment_changes_later_values() {
    let cs = small_cs();
    let a = ProverProof::create_with_blinds(&witness(), &cs, vec![], &blinds()).unwrap();
    // a different value in an unconstrained witness cell changes the witness
    // commitments, and through the transcript every later challenge
    let mut w = witness();
    w[1][2] = 123;
    let b = ProverProof::create_with_blinds(&w, &cs, vec![], &blinds()).unwrap();
    assert_ne!(a.commitments.w_comm[1], b.commitments.w_comm[1]);
    assert_ne!(a.evals[0].z, b.evals[0].z);
}

#[test]
fn sponge_is_deterministic_and_diffuses_its_input() {
    let mut s1 = Sponge::new();
    let mut s2 = Sponge::new();
    s1.absorb(9);
    s2.absorb(9);
    assert_eq!(s1.challenge(), s2.challenge());
    let mut s3 = Sponge::new();
    s3.absorb(10);
    let mut s4 = Sponge::new();
    s4.absorb(9);
    assert_ne!(s3.challenge(), s4.challenge());
}

#[test]
fn sponge_and_folding_have_exact_values() {
    // one absorb of 9 from the zero state, then one squeeze
    let mut s = Sponge::new();
    s.absorb(9);
    assert_eq!(s.challenge(), 118);
    // the endomorphism fold is the affine map endo * c + 1
    assert_eq!(plonk_prover::transcript::fold_chal(5, 94), 214);
    // a commitment digests the coefficients from the commitment state
    let poly: Vec<u64> = vec![1, 2, 3];
    assert_eq!(plonk_prover::prover::commit(&poly), 192);
}

#[test]
fn created_proofs_are_accepted() {
    let cs = small_cs();
    let pf = ProverProof::create_with_blinds(&witness(), &cs, vec![], &blinds()).unwrap();
    assert!(verify(&cs, &pf));
}

#[test]
fn tampered_evaluations_are_rejected() {
    let cs = small_cs();
    let pf = ProverProof::create_with_blinds(&witness(), &cs, vec![], &blinds()).unwrap();
    let mut bad = pf.clone();
    bad.evals[0].z = bad.evals[0].z ^ 1;
    assert!(!verify(&cs, &bad));
    let mut bad2 = pf.clone();
    bad2.evals[0].t = (bad2.evals[0].t + 1) % 257;
    assert!(!verify(&cs, &bad2));
    let mut bad3 = pf.clone();
    bad3.proof.combined = (bad3.proof.combined + 1) % 257;
    assert!(!verify(&cs, &bad3));
}

#[test]
fn create_with_fresh_randomness_succeeds() {
    let cs = small_cs();
    let pf = ProverProof::create(&witness(), &cs, vec![]).unwrap();
    assert_eq!(pf.public, vec![5]);
    assert!(verify(&cs, &pf));
}

#[test]
fn prev_challenges_pass_through_unchanged() {
    let cs = small_cs();
    let prev = vec![(vec![1, 2, 3], 9)];
    let pf = ProverProof::create_with_blinds(&witness(), &cs, prev.clone(), &blinds()).unwrap();
    assert_eq!(pf.prev_challenges, prev);
}
