//! How integer rescaling rounds, and what a scratch that is too short is refused for.

use vstd::arithmetic::power2::pow2;
use vstd::prelude::*;

use crate::error::EngineError;
use crate::layout::saturated;
use crate::quant::{high_mul, left_places, requantized, right_places, rounded_shift, short_scratch};

verus! {

/// The high half of a doubled product is the nearest to the product over two to the power of 31, the
/// greater of two that are equally near, and saturates only where both factors are the least.
pub proof fn high_products_are_nearest(a: i32, b: i32)
    ensures
        a == i32::MIN && b == i32::MIN ==> high_mul(a as int, b as int) == i32::MAX,
        !(a == i32::MIN && b == i32::MIN) ==> ({
            let h = high_mul(a as int, b as int);
            -0x4000_0000 < 0x8000_0000 * h - a * b <= 0x4000_0000
        }),
{
    let p = a * b;
    let h = (p + 0x4000_0000) / 0x8000_0000;
    assert(0x8000_0000 * h <= p + 0x4000_0000 < 0x8000_0000 * h + 0x8000_0000);
}

/// A rounded shift is the nearest to the number over two to the power of `e`, the one farther from
/// zero of two that are equally near, and turns its sign over with the number.
pub proof fn rounded_shifts_are_nearest(x: int, e: nat)
    ensures
        ({
            let p = pow2(e) as int;
            let r = rounded_shift(x, e);
            &&& -p <= 2 * (p * r - x) <= p
            &&& x >= 0 ==> 2 * (p * r - x) > -p
            &&& x <= 0 ==> 2 * (p * r - x) < p || p == 1
        }),
        rounded_shift(-x, e) == -rounded_shift(x, e),
        rounded_shift(x, 0) == x,
{
    let p = pow2(e) as int;
    vstd::arithmetic::power2::lemma_pow2_pos(e);
    vstd::arithmetic::power2::lemma2_to64();
    let n = if x >= 0 {
        x
    } else {
        -x
    };
    let q = (n + p / 2) / p;
    vstd::arithmetic::div_mod::lemma_fundamental_div_mod(n + p / 2, p);
    let m = (n + p / 2) % p;
    assert(0 <= m < p);
    assert(p * q + m == n + p / 2);
    if e > 0 {
        vstd::arithmetic::power2::lemma_pow2_unfold(e);
        assert(p % 2 == 0);
        assert(2 * (p / 2) == p);
    } else {
        assert(p == 1);
    }
    assert(p * (-q) == -(p * q)) by (nonlinear_arith);
    if x == 0 {
        assert(q == 0) by (nonlinear_arith)
            requires
                p * q + m == p / 2,
                0 <= m < p,
                p > 0,
                0 <= p / 2 < p,
        ;
    }
}

/// Rescaling multiplies first and shifts right behind it: a shift to the right leaves the number to be
/// multiplied as it is.
pub proof fn rescaling_shifts_behind_the_product(x: i32, mult: i32, shift: i32)
    requires
        -30 <= shift <= 0,
    ensures
        requantized(x, mult, shift) == rounded_shift(
            high_mul(x as int, mult as int),
            (-shift) as nat,
        ),
        left_places(shift) == 0,
        right_places(shift) == -shift,
{
}

/// A scratch that is too short is refused with what is needed of its shortest buffer and what that
/// has, in bytes.
pub proof fn short_scratches_are_told_in_bytes(need: nat, x: nat, s: nat, g: nat)
    requires
        need * 4 <= usize::MAX,
        x * 4 <= usize::MAX,
        s * 4 <= usize::MAX,
        g * 4 <= usize::MAX,
    ensures
        x <= s && x <= g ==> short_scratch::<u32>(need, x, s, g) == (EngineError::ArenaOverflow {
            requested: need as usize,
            available: x as usize,
        }),
        s < x && s <= g ==> short_scratch::<u32>(need, x, s, g) == (EngineError::ArenaOverflow {
            requested: (4 * need) as usize,
            available: (4 * s) as usize,
        }),
        g < x && g < s ==> short_scratch::<u32>(need, x, s, g) == (EngineError::ArenaOverflow {
            requested: (4 * need) as usize,
            available: (4 * g) as usize,
        }),
{
    broadcast use vstd::layout::layout_of_primitives;

}

/// A size that is too great for the machine is given as the greatest it has.
pub proof fn sizes_saturate(n: int)
    requires
        n >= 0,
    ensures
        n <= usize::MAX ==> saturated(n) == n,
        n > usize::MAX ==> saturated(n) == usize::MAX,
{
}

} // verus!
