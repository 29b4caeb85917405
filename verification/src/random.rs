//! The random source that every generation pass draws from.
//!
//! The generator itself lives in `bracket_random`, which `bracket_lib` hands
//! on. This module declares it and states what the library relies on from
//! its two sampling methods, `roll_dice` and `range`. What is stated of
//! those two is not proved: it is read off the generator's documentation and
//! source. Everything else here is built on them and verified.

use vstd::prelude::*;
use bracket_lib::random::RandomNumberGenerator;

verus! {

/// `bracket_random`'s generator, carried through verified code as an opaque
/// value.
#[verifier::external_type_specification]
#[verifier::external_body]
pub struct ExRandomNumberGenerator(RandomNumberGenerator);

/// Calls `RandomNumberGenerator::roll_dice`, which adds up `n` draws, each
/// uniform in `1..=die_type`. The total therefore lies between `n` and
/// `n * die_type`; which value comes back is left open. A die needs at least
/// one face, and the largest possible total has to fit the result type.
#[verifier::external_body]
pub(crate) fn roll_dice(rng: &mut RandomNumberGenerator, n: i32, die_type: i32) -> (total: i32)
    requires
        0 <= n,
        1 <= die_type,
        n * die_type <= i32::MAX,
        die_type < i32::MAX,
    ensures
        n <= total <= n * die_type,
{
    rng.roll_dice(n, die_type)
}

/// Calls `RandomNumberGenerator::range`, which draws uniformly from the
/// half-open interval `min..max`: the lower end can come back, the upper end
/// cannot. The interval must not be empty.
#[verifier::external_body]
pub(crate) fn range(rng: &mut RandomNumberGenerator, min: i32, max: i32) -> (value: i32)
    requires
        min < max,
    ensures
        min <= value < max,
{
    rng.range(min, max)
}

/// Rolls `n` dice with `die_type` faces and gives their total. Where the
/// largest total that the dice can show fits the result type, that is one
/// call of the generator. Where it does not, the dice are rolled one by one,
/// and a total beyond the range of the type comes back as the largest value
/// of the type.
pub fn roll_total(rng: &mut RandomNumberGenerator, n: i32, die_type: i32) -> (total: i32)
    requires
        0 <= n,
        1 <= die_type < i32::MAX,
    ensures
        n <= total <= n * die_type,
{
    assert(0 <= n * die_type <= 0x7fff_ffff * 0x7fff_ffff) by (nonlinear_arith)
        requires
            0 <= n <= 0x7fff_ffff,
            1 <= die_type <= 0x7fff_ffff,
    ;
    assert((n as i64) * (die_type as i64) == n * die_type) by (nonlinear_arith)
        requires
            n as i64 == n,
            die_type as i64 == die_type,
    ;
    if (n as i64) * (die_type as i64) <= i32::MAX as i64 {
        return roll_dice(rng, n, die_type);
    }
    let mut sum: i64 = 0;
    let mut rolled: i32 = 0;
    while rolled < n
        invariant
            0 <= rolled <= n,
            1 <= die_type < i32::MAX,
            rolled <= sum <= rolled * die_type,
            sum <= rolled * 0x7fff_ffff,
        decreases n - rolled,
    {
        let face: i32 = roll_dice(rng, 1, die_type);
        assert((rolled + 1) * die_type == rolled * die_type + die_type) by (nonlinear_arith);
        sum = sum + face as i64;
        rolled = rolled + 1;
    }
    if sum > i32::MAX as i64 {
        i32::MAX
    } else {
        sum as i32
    }
}

} // verus!
