use plonk_prover::field::{add_f, batch_invert, inv_f, mul_f, neg_f, pow_f, sub_f, P};

#[test]
fn modulus_is_the_expected_prime() {
    assert_eq!(P, 257);
}

#[test]
fn addition_wraps_at_the_modulus() {
    assert_eq!(add_f(200, 100), 43);
    assert_eq!(add_f(0, 0), 0);
    assert_eq!(add_f(256, 1), 0);
}

#[test]
fn multiplication_reduces_modulo_p() {
    assert_eq!(mul_f(16, 16), 256);
    assert_eq!(mul_f(16, 17), 15);
    assert_eq!(mul_f(0, 123), 0);
    assert_eq!(mul_f(1, 123), 123);
}

#[test]
fn negation_and_subtraction() {
    assert_eq!(neg_f(0), 0);
    assert_eq!(neg_f(1), 256);
    assert_eq!(sub_f(5, 7), 255);
    assert_eq!(sub_f(7, 7), 0);
}

#[test]
fn inverse_of_zero_is_zero_and_inverses_multiply_to_one() {
    assert_eq!(inv_f(0), 0);
    assert_eq!(inv_f(1), 1);
    for a in 1..P {
        assert_eq!(mul_f(a, inv_f(a)), 1);
    }
}

#[test]
fn batched_inversion_matches_single_inversion() {
    let v: Vec<u64> = vec![3, 0, 16, 1, 100, 0, 256];
    let r = batch_invert(&v);
    assert_eq!(r.len(), v.len());
    for j in 0..v.len() {
        assert_eq!(r[j], inv_f(v[j]));
    }
}

#[test]
fn power_by_running_product() {
    assert_eq!(pow_f(3, 0), 1);
    assert_eq!(pow_f(3, 1), 3);
    assert_eq!(pow_f(2, 8), 256);
    assert_eq!(pow_f(16, 4), 1);
    assert_eq!(pow_f(3, 64), 241);
}
