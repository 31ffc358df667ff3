//! The pseudo-random generator that fills channel slots left over after the
//! payload. Nothing is claimed about the bytes it draws.

use rand::rngs::StdRng;
use rand::Rng;
use rand::SeedableRng;
use vstd::prelude::*;

verus! {

/// `rand::rngs::StdRng`, carried through as an opaque value.
#[verifier::external_type_specification]
#[verifier::external_body]
pub struct ExStdRng(StdRng);

/// Calls `SeedableRng::seed_from_u64` of `rand` for `StdRng`. The
/// generator it returns is opaque, so nothing is stated about it.
#[verifier::external_body]
pub(crate) fn seeded_generator(seed: u64) -> StdRng {
    StdRng::seed_from_u64(seed)
}

/// Calls `Rng::gen::<u8>` of `rand`. The byte may be any byte: the
/// contract leaves it open.
#[verifier::external_body]
pub(crate) fn draw_byte(generator: &mut StdRng) -> u8 {
    generator.gen::<u8>()
}

} // verus!
