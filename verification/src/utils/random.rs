use std::collections::hash_map::RandomState;
use std::hash::BuildHasher;
use vstd::prelude::*;

verus! {

/// `RandomState::new()`: a hasher builder whose keys std draws from a
/// per-thread random seed, different for each call. Nothing is claimed of
/// the result, which depends on that seed.
#[verifier::external_body]
fn new_random_state() -> RandomState {
    RandomState::new()
}

/// `BuildHasher::hash_one` of the fixed value `0u8` under `state`'s keys.
/// The hash depends on the random keys; nothing is claimed of it.
#[verifier::external_body]
fn hash_zero(state: &RandomState) -> u64 {
    state.hash_one(0u8)
}

/// A pseudo-random number, different from call to call with overwhelming
/// probability; any value may come back.
pub(crate) fn random_u64() -> u64 {
    let state = new_random_state();
    hash_zero(&state)
}

} // verus!
