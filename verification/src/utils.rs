use bevy_prng::ChaCha8Rng;
use rand_core::RngCore;
use vstd::prelude::*;

verus! {

/// The ChaCha generator with eight rounds, carried through as an opaque value.
#[verifier::external_type_specification]
#[verifier::external_body]
pub struct ExChaCha8Rng(bevy_prng::ChaCha8Rng);

/// Draws the next word from the generator (`RngCore::next_u32`).
///
/// Nothing is claimed of the word: every `u32` is a possible outcome.
#[verifier::external_body]
fn next_u32(rng: &mut ChaCha8Rng) -> (raw: u32) {
    rng.next_u32()
}

/// The point of `[min, min + range)` that a raw word selects.
pub open spec fn fold_into_range(raw: u32, min: u32, range: u32) -> int {
    raw as int % range as int + min as int
}

/// Maps a raw word into the half-open range `[min, min + range)`.
pub fn scale_into_range(raw: u32, min: u32, range: u32) -> (value: u32)
    requires
        range > 0,
        min + range - 1 <= u32::MAX,
    ensures
        value == fold_into_range(raw, min, range),
        min <= value < min + range,
{
    raw % range + min
}

/// Draws a uniform value from the half-open range `[min, min + range)`.
pub fn rand_range(min: u32, range: u32, rng: &mut ChaCha8Rng) -> (value: u32)
    requires
        range > 0,
        min + range - 1 <= u32::MAX,
    ensures
        min <= value < min + range,
{
    let raw = next_u32(rng);
    scale_into_range(raw, min, range)
}

} // verus!
