//! The randomness that the simulation consumes, supplied by
//! `bevy_turborand` generators: one process-level generator that seeds the
//! per-side generators, and one owned generator per side of a match.
//!
//! Nothing is assumed about the values these generators produce; the only
//! fact the proofs rely on is that shuffling a vector permutes it.

use vstd::prelude::*;
use bevy_turborand::{DelegatedRng, GlobalRng, RngComponent};

verus! {

/// Per-side random-number generator (a WyRand state owned by one side of
/// one match). Opaque to verification.
#[verifier::external_type_specification]
#[verifier::external_body]
pub struct ExRngComponent(RngComponent);

/// Process-level random-number generator from which the per-side
/// generators are seeded. Opaque to verification.
#[verifier::external_type_specification]
#[verifier::external_body]
pub struct ExGlobalRng(GlobalRng);

/// Relies on `bevy_turborand::DelegatedRng::shuffle` (which delegates to
/// turborand's `TurboRand::shuffle`): it reorders the slice in place by
/// swapping elements, so the collection of elements is unchanged and only
/// their order varies with the generator's state.
#[verifier::external_body]
pub(crate) fn shuffle_vec<T>(rng: &mut RngComponent, v: &mut Vec<T>)
    ensures
        final(v)@.to_multiset() == old(v)@.to_multiset(),
        final(v)@.len() == old(v)@.len(),
{
    rng.shuffle(v.as_mut_slice());
}

/// Relies on `RngComponent::from(&mut GlobalRng)`: it seeds a fresh
/// per-side generator with a value drawn from the process-level one.
/// Nothing can be promised about the returned generator's state, and the
/// draw advances the process-level generator.
#[verifier::external_body]
pub(crate) fn fork_rng(global: &mut GlobalRng) -> (r: RngComponent)
{
    RngComponent::from(global)
}

/// Relies on `GlobalRng::with_seed`: it builds the process-level generator
/// from a fixed seed. Nothing about the resulting state is assumed.
#[verifier::external_body]
pub(crate) fn global_rng_from_seed(seed: u64) -> (r: GlobalRng)
{
    GlobalRng::with_seed(seed)
}

} // verus!
