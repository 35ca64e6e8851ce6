//! The order of single-precision values, on their bit patterns.
//!
//! A value is its 32-bit pattern: a sign bit, then the magnitude, whose patterns grow with
//! the value. Patterns above that of infinity are not numbers and compare with nothing.
//! The two zeros are equal.

use vstd::prelude::*;

verus! {

/// The pattern without its sign bit.
pub open spec fn magnitude(b: u32) -> int {
    if b < 0x8000_0000 {
        b as int
    } else {
        b - 0x8000_0000
    }
}

/// Whether the pattern is not a number.
pub open spec fn is_nan(b: u32) -> bool {
    magnitude(b) > 0x7f80_0000
}

/// A number's place in the order of numbers.
pub open spec fn rank(b: u32) -> int {
    if b < 0x8000_0000 {
        magnitude(b)
    } else {
        -magnitude(b)
    }
}

/// `a > b`.
pub open spec fn greater(a: u32, b: u32) -> bool {
    !is_nan(a) && !is_nan(b) && rank(a) > rank(b)
}

/// The place of a pattern in the total order: negative patterns from the largest
/// magnitude down, then positive ones up.
pub open spec fn total_rank(b: u32) -> int {
    if b < 0x8000_0000 {
        magnitude(b)
    } else {
        -magnitude(b) - 1
    }
}

/// Whether `a > b` as single-precision values.
pub fn gt(a: u32, b: u32) -> (r: bool)
    ensures
        r == greater(a, b),
{
    let ma: u32 = if a < 0x8000_0000 {
        a
    } else {
        a - 0x8000_0000
    };
    let mb: u32 = if b < 0x8000_0000 {
        b
    } else {
        b - 0x8000_0000
    };
    if ma > 0x7f80_0000 || mb > 0x7f80_0000 {
        return false;
    }
    if a < 0x8000_0000 {
        if b < 0x8000_0000 {
            ma > mb
        } else {
            ma > 0 || mb > 0
        }
    } else {
        if b < 0x8000_0000 {
            false
        } else {
            ma < mb
        }
    }
}

/// Whether `a` comes after `b` in the total order.
pub fn total_gt(a: u32, b: u32) -> (r: bool)
    ensures
        r == (total_rank(a) > total_rank(b)),
{
    if a < 0x8000_0000 {
        b >= 0x8000_0000 || a > b
    } else {
        b >= 0x8000_0000 && a < b
    }
}

/// `a <= b`.
pub open spec fn at_most(a: u32, b: u32) -> bool {
    !is_nan(a) && !is_nan(b) && rank(a) <= rank(b)
}

/// Whether the pattern is not a number.
fn nan(b: u32) -> (r: bool)
    ensures
        r == is_nan(b),
{
    if b < 0x8000_0000 {
        b > 0x7f80_0000
    } else {
        b - 0x8000_0000 > 0x7f80_0000
    }
}

/// Whether `a <= b` as single-precision values.
pub fn le(a: u32, b: u32) -> (r: bool)
    ensures
        r == at_most(a, b),
{
    !nan(a) && !nan(b) && !gt(a, b)
}

/// Whether `i` is the place of the maximum: no element is greater, and those before it that
/// are numbers are less. A first element that is not a number stays the maximum.
pub open spec fn is_argmax(buf: Seq<u32>, i: int) -> bool {
    &&& 0 <= i < buf.len()
    &&& is_nan(buf[0]) ==> i == 0
    &&& !is_nan(buf[0]) ==> !is_nan(buf[i])
    &&& forall|j: int| 0 <= j < buf.len() ==> !greater(#[trigger] buf[j], buf[i])
    &&& !is_nan(buf[0]) ==> forall|j: int|
        0 <= j < i ==> is_nan(#[trigger] buf[j]) || greater(buf[i], buf[j])
}

/// There is one place of the maximum.
pub proof fn argmax_is_unique(buf: Seq<u32>, i: int, j: int)
    requires
        is_argmax(buf, i),
        is_argmax(buf, j),
    ensures
        i == j,
{
    if i < j {
        assert(!greater(buf[j], buf[i]));
    } else if j < i {
        assert(!greater(buf[i], buf[j]));
    }
}

/// Index and value of the maximum element, the first on ties.
///
/// The running maximum starts at the first element and is replaced only by a greater one,
/// so a first element that is not a number stays.
pub fn argmax(buf: &[u32]) -> (r: (usize, u32))
    requires
        buf@.len() > 0,
    ensures
        is_argmax(buf@, r.0 as int),
        r.1 == buf@[r.0 as int],
{
    let mut best: usize = 0;
    let mut best_val: u32 = buf[0];
    let mut i: usize = 0;
    while i < buf.len()
        invariant
            i <= buf@.len(),
            best < buf@.len(),
            best_val == buf@[best as int],
            is_nan(buf@[0]) ==> best == 0,
            forall|j: int| 0 <= j < i ==> !greater(#[trigger] buf@[j], best_val),
            best <= i,
            !is_nan(buf@[0]) ==> forall|j: int|
                0 <= j < best ==> is_nan(#[trigger] buf@[j]) || greater(best_val, buf@[j]),
            !is_nan(buf@[0]) ==> !is_nan(best_val),
        decreases buf@.len() - i,
    {
        if gt(buf[i], best_val) {
            best_val = buf[i];
            best = i;
        }
        i = i + 1;
    }
    (best, best_val)
}

/// Clamp every negative value to zero, in place. A pattern that is not a number stays.
pub fn relu(x: &mut [u32])
    ensures
        final(x)@.len() == old(x)@.len(),
        forall|i: int|
            0 <= i < old(x)@.len() ==> #[trigger] final(x)@[i] == if greater(0, old(x)@[i]) {
                0
            } else {
                old(x)@[i]
            },
{
    let n: usize = x.len();
    let mut i: usize = 0;
    while i < n
        invariant
            i <= n,
            n == x@.len(),
            x@.len() == old(x)@.len(),
            forall|j: int|
                0 <= j < i ==> #[trigger] x@[j] == if greater(0, old(x)@[j]) {
                    0
                } else {
                    old(x)@[j]
                },
            forall|j: int| i <= j < n ==> #[trigger] x@[j] == old(x)@[j],
        decreases n - i,
    {
        if gt(0, x[i]) {
            x[i] = 0;
        }
        i = i + 1;
    }
}

} // verus!
