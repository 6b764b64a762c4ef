use plonk_prover::circuit::ConstraintSystem;
use plonk_prover::domain::Domain;
use plonk_prover::sorting::sort_values;

#[test]
fn domain_of_size_four_with_an_order_four_generator() {
    let d = Domain::new(4, 16).unwrap();
    assert_eq!(d.pows, vec![1, 16, 256, 241]);
}

#[test]
fn domain_rejects_bad_sizes_and_generators() {
    // not a power of two
    assert!(Domain::new(3, 16).is_none());
    // the subgroup does not close after four steps
    assert!(Domain::new(4, 2).is_none());
    // the powers repeat before the size is reached
    assert!(Domain::new(4, 256).is_none());
    // out of the field
    assert!(Domain::new(4, 300).is_none());
}

#[test]
fn constraint_system_rejects_wrong_column_lengths() {
    let d = Domain::new(4, 16).unwrap();
    let r = ConstraintSystem::new(
        d,
        0,
        vec![0, 0],
        vec![0, 10, 20, 30],
        vec![0, 0, 0, 0],
        vec![0, 0, 0, 0],
        vec![0, 0, 0, 0],
        vec![0, 0, 0, 0],
        vec![0, 0, 0, 0],
    );
    assert!(r.is_none());
}

#[test]
fn constraint_system_rejects_values_outside_the_field() {
    let d = Domain::new(4, 16).unwrap();
    let r = ConstraintSystem::new(
        d,
        0,
        vec![0, 0, 0],
        vec![0, 10, 20, 300],
        vec![0, 0, 0, 0],
        vec![0, 0, 0, 0],
        vec![0, 0, 0, 0],
        vec![0, 0, 0, 0],
        vec![0, 0, 0, 0],
    );
    assert!(r.is_none());
}

#[test]
fn sorting_orders_values_and_keeps_the_multiset() {
    let v: Vec<u64> = vec![30, 0, 10, 10, 0, 20, 0];
    assert_eq!(sort_values(&v), vec![0, 0, 0, 10, 10, 20, 30]);
    let empty: Vec<u64> = vec![];
    assert_eq!(sort_values(&empty), empty);
    let single: Vec<u64> = vec![7];
    assert_eq!(sort_values(&single), vec![7]);
}
