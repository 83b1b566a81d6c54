//! Random numbers, drawn from the outside generator.
use vstd::prelude::*;

verus! {

/// `rltk::RandomNumberGenerator`, whose state is not looked into.
#[verifier::external_type_specification]
#[verifier::external_body]
pub struct ExRandomNumberGenerator(rltk::RandomNumberGenerator);

/// `rltk::RandomNumberGenerator::new`: a generator seeded from the system's
/// entropy. Nothing is known of what it will draw.
#[verifier::external_body]
pub(crate) fn fresh_generator() -> rltk::RandomNumberGenerator {
    rltk::RandomNumberGenerator::new()
}

/// `rltk::RandomNumberGenerator::range` on `i32`: some number from `min` up
/// to but not including `max`. The outside function panics on an empty
/// range, which the precondition rules out.
#[verifier::external_body]
pub(crate) fn range(rng: &mut rltk::RandomNumberGenerator, min: i32, max: i32) -> (r: i32)
    requires
        min < max,
    ensures
        min <= r < max,
{
    rng.range(min, max)
}

/// `rltk::RandomNumberGenerator::roll_dice`: the sum of `n` rolls of a die
/// with faces `1` to `die_type`, which lies between `n` and `n * die_type`.
/// The outside function panics on a die without faces and overflows where
/// the largest sum does not fit, which the preconditions rule out.
#[verifier::external_body]
pub(crate) fn roll_dice(rng: &mut rltk::RandomNumberGenerator, n: i32, die_type: i32) -> (r: i32)
    requires
        0 <= n,
        1 <= die_type < i32::MAX,
        n * die_type <= i32::MAX,
    ensures
        n <= r <= n * die_type,
{
    rng.roll_dice(n, die_type)
}

} // verus!
