//! Dice and random choices, drawn from rltk's random number generator.

use vstd::prelude::*;
use rltk::RandomNumberGenerator;

verus! {

/// rltk's random number generator, carried through the game logic as an opaque value.
#[verifier::external_type_specification]
#[verifier::external_body]
pub struct ExRandomNumberGenerator(RandomNumberGenerator);

/// Whether rolling `n` dice with `die_type` faces stays within `i32` and never
/// samples an empty range.
pub open spec fn dice_rollable(n: i32, die_type: i32) -> bool {
    n <= 0 || (1 <= die_type < i32::MAX && n * die_type <= i32::MAX)
}

/// Replaces the generator with one seeded by `seed`
/// (`RandomNumberGenerator::seeded`); nothing is promised of the numbers it yields.
#[verifier::external_body]
pub fn reseed(rng: &mut RandomNumberGenerator, seed: u64) {
    *rng = RandomNumberGenerator::seeded(seed);
}

/// Rolls `n` dice of `die_type` faces and sums them
/// (`RandomNumberGenerator::roll_dice`). rltk sums `n` draws of `range(1, die_type + 1)`,
/// so the total lies between `n` and `n * die_type`, and is 0 when `n` is not positive.
/// Which total comes out depends on the generator's hidden state and is not stated.
#[verifier::external_body]
pub fn roll_dice(rng: &mut RandomNumberGenerator, n: i32, die_type: i32) -> (total: i32)
    requires
        dice_rollable(n, die_type),
    ensures
        n <= 0 ==> total == 0,
        n > 0 ==> n <= total <= n * die_type,
{
    rng.roll_dice(n, die_type)
}

/// A number drawn from `min` (inclusive) to `max` (exclusive)
/// (`RandomNumberGenerator::range`, which panics on an empty range). Which number comes
/// out depends on the generator's hidden state and is not stated.
#[verifier::external_body]
pub fn range(rng: &mut RandomNumberGenerator, min: i32, max: i32) -> (r: i32)
    requires
        min < max,
    ensures
        min <= r < max,
{
    rng.range(min, max)
}

/// A random index into `slice`, or `None` when it is empty
/// (`RandomNumberGenerator::random_slice_index`, which rolls one die with as many faces
/// as the slice has entries). Which index comes out is not stated.
#[verifier::external_body]
pub fn random_slice_index<T>(rng: &mut RandomNumberGenerator, slice: &[T]) -> (idx: Option<usize>)
    requires
        slice@.len() < i32::MAX,
    ensures
        slice@.len() == 0 <==> idx is None,
        idx matches Some(i) ==> i < slice@.len(),
{
    rng.random_slice_index(slice)
}

} // verus!
