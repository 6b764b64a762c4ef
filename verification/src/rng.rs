//! Blinding randomness.  The generator itself is an outside collaborator;
//! everything the library does with the drawn values is verified for every
//! possible outcome.
use vstd::prelude::*;

verus! {

use crate::field::{all_in_field, P};

/// Relies on rand::rngs::ThreadRng: the thread-local generator's handle,
/// carried opaquely.
#[verifier::external_type_specification]
#[verifier::external_body]
pub struct ExThreadRng(rand::rngs::ThreadRng);

/// Relies on rand::thread_rng: a handle to the thread-local generator.
#[verifier::external_body]
pub(crate) fn new_rng() -> rand::rngs::ThreadRng {
    rand::thread_rng()
}

/// Relies on rand::Rng::gen for u64: a fresh random value, of which nothing
/// can be promised.
#[verifier::external_body]
fn rand_u64(rng: &mut rand::rngs::ThreadRng) -> u64 {
    rand::Rng::gen::<u64>(rng)
}

/// Draw `count` field elements of fresh randomness.
pub fn random_field_vec(rng: &mut rand::rngs::ThreadRng, count: usize) -> (r: Vec<u64>)
    ensures r@.len() == count, all_in_field(r@),
{
    let mut r: Vec<u64> = Vec::new();
    let mut i: usize = 0;
    while i < count
        invariant i <= count, r@.len() == i, all_in_field(r@),
        decreases count - i,
    {
        let x = rand_u64(rng);
        r.push(x % P);
        i = i + 1;
    }
    r
}

} // verus!
