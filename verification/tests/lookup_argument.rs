use plonk_prover::circuit::ConstraintSystem;
use plonk_prover::domain::Domain;
use plonk_prover::errors::ProofError;
use plonk_prover::oracles::RandomOracles;
use plonk_prover::sorting::sort_values;

fn small_cs() -> ConstraintSystem {
    // Domain of size 4 generated by 16 (order 4 modulo 257).
    let domain = Domain::new(4, 16).unwrap();
    // One lookup-active row; table holds 0 so that inactive rows close.
    ConstraintSystem::new(
        domain,
        1,
        vec![1, 0, 0],
        vec![0, 10, 20, 30],
        vec![1, 0, 0, 0],
        vec![0, 0, 0, 0],
        vec![0, 0, 0, 0],
        vec![0, 0, 0, 0],
        vec![0, 0, 0, 0],
    )
    .unwrap()
}

fn witness_for(selected: u64) -> Vec<Vec<u64>> {
    vec![
        vec![5, 0, 0, 0],
        vec![0, 0, 0, 0],
        vec![0, 0, 0, 0],
        vec![0, 0, 0, 0],
        vec![selected, 99, 98, 97],
    ]
}

#[test]
fn sorted_set_windows_share_one_boundary_value() {
    let cs = small_cs();
    let witness = witness_for(10);
    let evals = cs.tbllkp_sortedset(&witness);
    // lw = selector * last column, rows 0..3
    assert_eq!(evals.lw, vec![10, 0, 0]);
    assert_eq!(evals.h1.len(), 4);
    assert_eq!(evals.h2.len(), 4);
    // sorted union of {10,0,0} and {0,10,20,30} is [0,0,0,10,10,20,30]
    assert_eq!(evals.h1, vec![0, 0, 0, 10]);
    assert_eq!(evals.h2, vec![10, 10, 20, 30]);
    assert_eq!(evals.h2[0], evals.h1[3]);
    // re-sorting the concatenation without the duplicated boundary value
    // reproduces the sorted multiset union
    let mut joined = evals.h1.clone();
    joined.extend_from_slice(&evals.h2[1..]);
    let mut multiset = evals.lw.clone();
    multiset.extend_from_slice(&cs.table1);
    assert_eq!(sort_values(&joined), sort_values(&multiset));
    assert_eq!(sort_values(&multiset), joined);
}

#[test]
fn aggregation_terminates_at_one_for_a_covered_witness() {
    let cs = small_cs();
    let witness = witness_for(10);
    let mut evals = cs.tbllkp_sortedset(&witness);
    let mut oracles = RandomOracles::zero();
    oracles.beta2 = 5;
    oracles.gamma2 = 7;
    let l = cs.tbllkp_aggreg(&mut evals, &oracles, (3, 1, 4)).unwrap();
    assert_eq!(evals.l.len(), 4);
    assert_eq!(evals.l[0], 1);
    assert_eq!(evals.l[3], 1);
    // the blinded polynomial still takes the aggregation values on the domain
    for j in 0..4 {
        assert_eq!(plonk_prover::poly::eval_poly(&l, cs.domain.pows[j]), evals.l[j]);
    }
}

#[test]
fn aggregation_rejects_a_value_outside_the_table() {
    let cs = small_cs();
    let witness = witness_for(15);
    let mut evals = cs.tbllkp_sortedset(&witness);
    let mut oracles = RandomOracles::zero();
    oracles.beta2 = 5;
    oracles.gamma2 = 7;
    let r = cs.tbllkp_aggreg(&mut evals, &oracles, (0, 0, 0));
    assert!(matches!(r, Err(ProofError::ArgumentIntegrityFailed)));
}

#[test]
fn quotient_contribution_divides_both_boundary_terms() {
    let cs = small_cs();
    let witness = witness_for(10);
    let mut evals = cs.tbllkp_sortedset(&witness);
    let mut oracles = RandomOracles::zero();
    oracles.beta2 = 5;
    oracles.gamma2 = 7;
    let l = cs.tbllkp_aggreg(&mut evals, &oracles, (3, 1, 4)).unwrap();
    let polys = cs.lookup_polys(&evals, l);
    let alphas: Vec<u64> = vec![2, 4, 8, 16];
    let (main, bnd) = cs.tbllkp_quot(&polys, &oracles, &alphas).unwrap();
    // the main contribution vanishes on every domain point: row identities
    // on rows 0..2 and the mask on the wrap row
    for j in 0..4 {
        assert_eq!(plonk_prover::poly::eval_poly(&main, cs.domain.pows[j]), 0);
    }
    assert!(main.len() > 0);
    assert!(bnd.len() > 0);
}

#[test]
fn quotient_contribution_rejects_a_broken_aggregation() {
    let cs = small_cs();
    let witness = witness_for(10);
    let mut evals = cs.tbllkp_sortedset(&witness);
    let mut oracles = RandomOracles::zero();
    oracles.beta2 = 5;
    oracles.gamma2 = 7;
    let mut l = cs.tbllkp_aggreg(&mut evals, &oracles, (3, 1, 4)).unwrap();
    // corrupting the aggregation polynomial breaks the first boundary
    // division, which demands an exact root at one
    l[0] = l[0] ^ 1;
    let polys = cs.lookup_polys(&evals, l);
    let alphas: Vec<u64> = vec![2, 4, 8, 16];
    let r = cs.tbllkp_quot(&polys, &oracles, &alphas);
    assert!(matches!(r, Err(ProofError::PolyDivisionFailed)));
}
