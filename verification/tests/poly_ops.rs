use plonk_prover::poly::{
    divide_by_linear, divide_by_vanishing, eval_poly, interpolate, is_zero_poly, padd, pmul,
    pmul_lin, pscale, pshift_arg, psub,
};

#[test]
fn add_sub_scale_on_coefficients() {
    let a: Vec<u64> = vec![1, 2, 3];
    let b: Vec<u64> = vec![10, 20];
    assert_eq!(padd(&a, &b), vec![11, 22, 3]);
    assert_eq!(psub(&a, &b), vec![248, 239, 3]);
    assert_eq!(pscale(2, &a), vec![2, 4, 6]);
}

#[test]
fn product_by_convolution() {
    // (1 + 2 X) (3 + X) = 3 + 7 X + 2 X^2
    let a: Vec<u64> = vec![1, 2];
    let b: Vec<u64> = vec![3, 1];
    assert_eq!(pmul(&a, &b), vec![3, 7, 2]);
    let e: Vec<u64> = vec![];
    assert_eq!(pmul(&a, &e), vec![]);
}

#[test]
fn horner_evaluation() {
    // 3 + 7 X + 2 X^2 at X = 4: 3 + 28 + 32 = 63
    let p: Vec<u64> = vec![3, 7, 2];
    assert_eq!(eval_poly(&p, 4), 63);
    assert_eq!(eval_poly(&p, 0), 3);
}

#[test]
fn argument_shift_scales_each_coefficient() {
    // q(w X): coefficient k multiplied by w^k
    let q: Vec<u64> = vec![5, 1, 1];
    assert_eq!(pshift_arg(&q, 2), vec![5, 2, 4]);
}

#[test]
fn linear_division_is_exact_at_a_root() {
    // (2 + 3 X) (X - 5) computed as pmul_lin, then divided back
    let q: Vec<u64> = vec![2, 3];
    let num = pmul_lin(&q, 5);
    let (qq, rem) = divide_by_linear(&num, 5);
    assert_eq!(qq, vec![2, 3]);
    assert_eq!(rem, 0);
}

#[test]
fn linear_division_remainder_is_the_value_at_the_point() {
    // 3 + 7 X + 2 X^2 divided by (X - 4): remainder is the evaluation at 4
    let p: Vec<u64> = vec![3, 7, 2];
    let (_, rem) = divide_by_linear(&p, 4);
    assert_eq!(rem, 63);
}

#[test]
fn vanishing_division_is_exact_for_a_multiple() {
    // (1 + X) (X^4 - 1) = -1 - X + X^4 + X^5
    let num: Vec<u64> = vec![256, 256, 0, 0, 1, 1];
    let (q, rem) = divide_by_vanishing(&num, 4);
    assert_eq!(q, vec![1, 1]);
    assert!(is_zero_poly(&rem));
}

#[test]
fn vanishing_division_detects_a_mutated_coefficient() {
    // the same multiple with one coefficient changed by one
    let num: Vec<u64> = vec![256, 0, 0, 0, 1, 1];
    let (_, rem) = divide_by_vanishing(&num, 4);
    assert!(!is_zero_poly(&rem));
}

#[test]
fn interpolation_passes_through_the_points() {
    let pts: Vec<u64> = vec![1, 16, 256, 241];
    let vals: Vec<u64> = vec![7, 100, 0, 42];
    let p = interpolate(&pts, &vals);
    assert!(p.len() <= 4);
    for j in 0..4 {
        assert_eq!(eval_poly(&p, pts[j]), vals[j]);
    }
}
