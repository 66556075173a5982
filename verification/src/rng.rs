use vstd::prelude::*;

verus! {

/// The crate's randomness source is rand's standard generator, constructed
/// and seeded by the embedding program and threaded by `&mut` through every
/// function that draws from it.
#[verifier::external_type_specification]
#[verifier::external_body]
pub struct ExStdRng(rand::rngs::StdRng);

/// Relies on rand's `Rng::gen` at `u64`: advances the generator and returns
/// its next value. Nothing is promised of the result; callers state what
/// holds of every outcome.
#[verifier::external_body]
pub(crate) fn draw_u64(rng: &mut rand::rngs::StdRng) -> u64 {
    rand::Rng::gen::<u64>(rng)
}

} // verus!
