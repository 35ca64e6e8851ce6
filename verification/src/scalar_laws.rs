//! What the constants stand for, and what turning a sign over and dropping it mean.

use vstd::prelude::*;

use crate::order::{at_most, is_nan};
use crate::sample::DRAW_STEP;
use crate::scalar::{
    absolute, negated, EPSILON, FRAC_1_SQRT_2, HALF, NEGATIVE_ZERO, ONE, POSITION_BASE, RAIL, TWO,
    ZERO,
};
use crate::seq2seq::tokenizer::{NEG_INFINITY, UNKNOWN_MARGIN};

verus! {

/// Two to the power of `k`.
pub open spec fn power(k: nat) -> int
    decreases k,
{
    if k == 0 {
        1
    } else {
        2 * power((k - 1) as nat)
    }
}

/// The significand of a pattern of a number that is not too small: 24 bits, the first of them one.
pub open spec fn significand(x: u32) -> int {
    0x80_0000 + x as int % 0x80_0000
}

/// How many places the point of the significand is moved to the left.
pub open spec fn places(x: u32) -> int {
    150 - x as int % 0x8000_0000 / 0x80_0000
}

/// Whether a positive pattern stands for `p / q`, exactly.
pub open spec fn is_ratio(x: u32, p: int, q: int) -> bool {
    &&& 0x80_0000 <= x < 0x7f80_0000
    &&& places(x) >= 0
    &&& significand(x) * q == p * power(places(x) as nat)
}

/// The constants stand for one, two, a half, 127, ten thousand, ten, and one over two to the power of
/// 24.
pub proof fn constants_stand_for_their_numbers()
    ensures
        is_ratio(ONE, 1, 1),
        is_ratio(TWO, 2, 1),
        is_ratio(HALF, 1, 2),
        is_ratio(RAIL, 127, 1),
        is_ratio(POSITION_BASE, 10000, 1),
        is_ratio(UNKNOWN_MARGIN, 10, 1),
        is_ratio(DRAW_STEP, 1, 0x100_0000),
        ZERO == 0,
        NEGATIVE_ZERO == negated(ZERO),
{
    reveal_with_fuel(power, 49);
}

/// The addend of the norms is the pattern nearest to a hundred-thousandth, and the factor of the
/// error function the one nearest to one over the root of two: in units of the last place, the
/// former is off by half a unit at most, and the square of the latter lies between those of its
/// neighbours half a unit off.
pub proof fn constants_are_nearest()
    ensures
        ({
            let s = significand(EPSILON);
            let one = power(places(EPSILON) as nat);
            -100_000 <= 2 * (s * 100_000 - one) <= 100_000
        }),
        ({
            let s = significand(FRAC_1_SQRT_2);
            let one = power(places(FRAC_1_SQRT_2) as nat);
            2 * (2 * s - 1) * (2 * s - 1) <= 4 * one * one <= 2 * (2 * s + 1) * (2 * s + 1)
        }),
{
    reveal_with_fuel(power, 45);
    let (s, one) = (significand(FRAC_1_SQRT_2), power(places(FRAC_1_SQRT_2) as nat));
    assert(s == 0xb5_04f3);
    assert(one == 0x100_0000);
    assert(2 * (2 * s - 1) * (2 * s - 1) <= 4 * one * one <= 2 * (2 * s + 1) * (2 * s + 1))
        by (nonlinear_arith)
        requires
            s == 0xb5_04f3,
            one == 0x100_0000,
    ;
}

/// The lowest score of all lies below every number.
pub proof fn the_lowest_score_is_lowest(x: u32)
    ensures
        !is_nan(x) ==> at_most(NEG_INFINITY, x),
        !is_nan(NEG_INFINITY),
{
}

/// Turning a sign over twice changes nothing; dropping it gives one pattern for a number and its
/// negative, and leaves the number or its negative.
pub proof fn signs_turn_over(x: u32)
    ensures
        negated(negated(x)) == x,
        negated(x) != x,
        absolute(negated(x)) == absolute(x),
        absolute(x) == x || absolute(x) == negated(x),
        absolute(x) < 0x8000_0000,
{
}

} // verus!
