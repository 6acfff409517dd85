use vstd::prelude::*;
use bracket_lib::prelude::RandomNumberGenerator;

verus! {

/// bracket-random's seedable generator, carried through as an opaque value.
#[verifier::external_type_specification]
#[verifier::external_body]
pub struct ExRandomNumberGenerator(RandomNumberGenerator);

/// Relies on `RandomNumberGenerator::range` of bracket-random: a value drawn
/// from `min..max`, lower bound included, upper bound excluded. It panics on
/// an empty range, which `requires` leaves out.
#[verifier::external_body]
pub(crate) fn rng_range(rng: &mut RandomNumberGenerator, min: i32, max: i32) -> (r: i32)
    requires
        min < max,
    ensures
        min <= r < max,
{
    rng.range(min, max)
}

/// Relies on `RandomNumberGenerator::roll_dice` of bracket-random: the sum of
/// `n` draws, each from `1..=die_type`.
#[verifier::external_body]
pub(crate) fn rng_roll_dice(rng: &mut RandomNumberGenerator, n: i32, die_type: i32) -> (r: i32)
    requires
        1 <= n <= 100,
        1 <= die_type <= 10000,
    ensures
        n <= r <= n * die_type,
{
    rng.roll_dice(n, die_type)
}

} // verus!
