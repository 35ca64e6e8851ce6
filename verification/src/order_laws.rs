//! How bit patterns are ordered: as the numbers that they stand for.

use vstd::prelude::*;

use crate::order::{at_most, greater, is_argmax, is_nan, total_rank};
use crate::scalar::{absolute, negated, NEGATIVE_ZERO, ONE, TWO, ZERO};

verus! {

/// Patterns of numbers that are not negative are ordered as they are as integers; both zeros are
/// equal; turning signs over turns the order round; and nothing compares with what is no number.
pub proof fn patterns_are_ordered_as_numbers(x: u32, y: u32)
    ensures
        !is_nan(x) && !is_nan(y) && x < 0x8000_0000 && y < 0x8000_0000 ==> (greater(x, y) <==> x
            > y),
        greater(x, y) <==> greater(negated(y), negated(x)),
        at_most(x, y) <==> at_most(negated(y), negated(x)),
        !is_nan(x) && !is_nan(y) ==> (at_most(x, y) <==> !greater(x, y)),
        is_nan(x) || is_nan(y) ==> !greater(x, y) && !at_most(x, y),
        at_most(ZERO, NEGATIVE_ZERO) && at_most(NEGATIVE_ZERO, ZERO),
        !is_nan(x) ==> at_most(ZERO, absolute(x)),
        at_most(ZERO, x) ==> at_most(x, absolute(x)) && at_most(absolute(x), x),
        at_most(x, ZERO) ==> at_most(negated(x), absolute(x)) && at_most(absolute(x), negated(x)),
        greater(ONE, ZERO) && greater(TWO, ONE),
{
}

/// What is no number lies beyond the infinities, whatever its sign.
pub proof fn no_numbers_lie_beyond_the_infinities(x: u32)
    ensures
        is_nan(x) <==> absolute(x) > 0x7f80_0000,
        is_nan(negated(x)) == is_nan(x),
        !is_nan(x) ==> at_most(x, 0x7f80_0000) && at_most(0xff80_0000, x),
{
}

/// The order is transitive.
pub proof fn the_order_is_transitive(x: u32, y: u32, z: u32)
    ensures
        at_most(x, y) && at_most(y, z) ==> at_most(x, z),
        greater(x, y) && at_most(z, y) ==> greater(x, z),
        greater(x, y) && greater(y, z) ==> greater(x, z),
{
}

/// The order of all patterns refines the order of numbers: it tells the zeros apart, and puts what
/// is no number at either end.
pub proof fn all_patterns_are_ordered(x: u32, y: u32)
    ensures
        greater(x, y) ==> total_rank(x) > total_rank(y),
        total_rank(x) == total_rank(y) <==> x == y,
        total_rank(NEGATIVE_ZERO) < total_rank(ZERO),
        is_nan(x) && x < 0x8000_0000 && !is_nan(y) ==> total_rank(x) > total_rank(y),
        is_nan(x) && x >= 0x8000_0000 && !is_nan(y) ==> total_rank(x) < total_rank(y),
{
}

/// The greatest of numbers is the first that no other exceeds.
pub proof fn the_greatest_is_the_first(buf: Seq<u32>, i: int)
    requires
        forall|j: int| 0 <= j < buf.len() ==> !is_nan(#[trigger] buf[j]),
    ensures
        is_argmax(buf, i) <==> 0 <= i < buf.len() && (forall|j: int|
            0 <= j < buf.len() ==> at_most(#[trigger] buf[j], buf[i])) && (forall|j: int|
            0 <= j < i ==> greater(buf[i], #[trigger] buf[j])),
{
    if is_argmax(buf, i) {
        assert(!is_nan(buf[0]));
        assert forall|j: int| 0 <= j < buf.len() implies at_most(#[trigger] buf[j], buf[i]) by {
            assert(!is_nan(buf[j]) && !is_nan(buf[i]));
        }
        assert forall|j: int| 0 <= j < i implies greater(buf[i], #[trigger] buf[j]) by {
            assert(!is_nan(buf[j]));
        }
    }
}

} // verus!
