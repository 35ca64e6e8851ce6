//! Whole numbers as single-precision arithmetic computes with them.
//!
//! Whole numbers of up to 24 bits are exact in single precision: their sums, differences and
//! products come out exactly while they stay in that range, and so do quotients that are whole
//! and roots of squares. The laws on the kernels use this to say what a kernel is for: on whole
//! numbers its result is the exact one.

use vstd::prelude::*;

use crate::scalar::{negated, value, Scalar, NEGATIVE_ZERO, ONE, TWO, ZERO};

verus! {

/// Whether a whole number is in the range in which arithmetic is exact.
pub open spec fn small(n: int) -> bool {
    -0x100_0000 <= n <= 0x100_0000
}

/// The magnitude of a whole number.
pub open spec fn size(n: int) -> int {
    if n < 0 {
        -n
    } else {
        n
    }
}

/// The whole number that a pattern stands for.
pub open spec fn num(r: spec_fn(u32) -> Option<int>, x: u32) -> int {
    r(x)->0
}

/// Whether a pattern stands for a whole number.
pub open spec fn is_whole(r: spec_fn(u32) -> Option<int>, x: u32) -> bool {
    r(x) is Some
}

/// The sum of `f(0)` up to `f(n - 1)`.
pub open spec fn int_sum(f: spec_fn(int) -> int, n: int) -> int
    decreases n,
{
    if n <= 0 {
        0
    } else {
        int_sum(f, n - 1) + f(n - 1)
    }
}

/// The sum of the magnitudes of `f(0)` up to `f(n - 1)`.
pub open spec fn size_sum(f: spec_fn(int) -> int, n: int) -> int
    decreases n,
{
    if n <= 0 {
        0
    } else {
        size_sum(f, n - 1) + size(f(n - 1))
    }
}

/// Whether a sum stays in the exact range in whatever order its terms are added.
pub open spec fn bounded(f: spec_fn(int) -> int, n: int) -> bool {
    size_sum(f, n) <= 0x100_0000
}

/// The terms that eight lanes hold.
pub open spec fn lane_terms(r: spec_fn(u32) -> Option<int>, l: [u32; 8]) -> spec_fn(int) -> int {
    |k: int| num(r, l@[k])
}

/// Whether an arithmetic is exact on the whole numbers that patterns stand for, `r` telling
/// which pattern stands for which number.
pub open spec fn exact<A: Fn(Scalar) -> u32>(a: A, r: spec_fn(u32) -> Option<int>) -> bool {
    &&& r(ZERO) == Some(0int)
    &&& r(NEGATIVE_ZERO) == Some(0int)
    &&& r(ONE) == Some(1int)
    &&& r(TWO) == Some(2int)
    &&& forall|x: u32| #[trigger]
        is_whole(r, x) ==> r(negated(x)) == Some(-num(r, x))
    &&& forall|x: u32, y: u32|
        is_whole(r, x) && is_whole(r, y) && small(num(r, x) + num(r, y)) ==> r(
            #[trigger] value(a, Scalar::Add(x, y)),
        ) == Some(num(r, x) + num(r, y))
    &&& forall|x: u32, y: u32|
        is_whole(r, x) && is_whole(r, y) && small(num(r, x) - num(r, y)) ==> r(
            #[trigger] value(a, Scalar::Sub(x, y)),
        ) == Some(num(r, x) - num(r, y))
    &&& forall|x: u32, y: u32|
        is_whole(r, x) && is_whole(r, y) && small(num(r, x) * num(r, y)) ==> r(
            #[trigger] value(a, Scalar::Mul(x, y)),
        ) == Some(num(r, x) * num(r, y))
    &&& forall|x: u32, y: u32, q: int|
        #![trigger value(a, Scalar::Div(x, y)), small(q)]
        is_whole(r, x) && is_whole(r, y) && num(r, y) != 0 && small(q) && num(r, x) == num(r, y)
            * q ==> r(value(a, Scalar::Div(x, y))) == Some(q)
    &&& forall|x: u32, q: int|
        #![trigger value(a, Scalar::Sqrt(x)), small(q)]
        is_whole(r, x) && q >= 0 && small(q) && num(r, x) == q * q ==> r(
            value(a, Scalar::Sqrt(x)),
        ) == Some(q)
    &&& forall|n: usize|
        small(n as int) ==> r(#[trigger] value(a, Scalar::Count(n))) == Some(n as int)
    &&& forall|n: i32|
        small(n as int) ==> r(#[trigger] value(a, Scalar::Int(n))) == Some(n as int)
    &&& forall|l: [u32; 8]|
        (forall|k: int| 0 <= k < 8 ==> is_whole(r, #[trigger] l@[k])) && bounded(
            lane_terms(r, l),
            8,
        ) ==> r(#[trigger] value(a, Scalar::SumLanes(l))) == Some(int_sum(lane_terms(r, l), 8))
}

/// Equal terms have equal sums.
pub proof fn equal_sums(f: spec_fn(int) -> int, g: spec_fn(int) -> int, n: int)
    requires
        forall|k: int| 0 <= k < n ==> #[trigger] f(k) == g(k),
    ensures
        int_sum(f, n) == int_sum(g, n),
        size_sum(f, n) == size_sum(g, n),
    decreases n,
{
    if n > 0 {
        equal_sums(f, g, n - 1);
        assert(f(n - 1) == g(n - 1));
    }
}

/// A sum is no greater than the sum of the magnitudes.
pub proof fn sum_within(f: spec_fn(int) -> int, n: int)
    ensures
        size(int_sum(f, n)) <= size_sum(f, n),
        size_sum(f, n) >= 0,
    decreases n,
{
    if n > 0 {
        sum_within(f, n - 1);
    }
}

/// A sum of sums of two terms each.
pub proof fn sums_of_sums(
    f: spec_fn(int) -> int,
    g: spec_fn(int) -> int,
    h: spec_fn(int) -> int,
    n: int,
)
    requires
        forall|k: int| 0 <= k < n ==> #[trigger] f(k) == g(k) + h(k),
    ensures
        int_sum(f, n) == int_sum(g, n) + int_sum(h, n),
        size_sum(f, n) <= size_sum(g, n) + size_sum(h, n),
    decreases n,
{
    if n > 0 {
        sums_of_sums(f, g, h, n - 1);
        assert(f(n - 1) == g(n - 1) + h(n - 1));
    }
}

/// A sum goes on with the terms that follow.
pub proof fn sum_goes_on(f: spec_fn(int) -> int, g: spec_fn(int) -> int, m: int, n: int)
    requires
        0 <= m,
        0 <= n,
        forall|k: int| 0 <= k < n ==> #[trigger] g(k) == f(m + k),
    ensures
        int_sum(f, m + n) == int_sum(f, m) + int_sum(g, n),
        size_sum(f, m + n) == size_sum(f, m) + size_sum(g, n),
    decreases n,
{
    if n > 0 {
        sum_goes_on(f, g, m, n - 1);
        assert(g(n - 1) == f(m + (n - 1)));
    }
}

/// A term is no greater than the sum of the magnitudes.
pub proof fn term_within(f: spec_fn(int) -> int, k: int, n: int)
    requires
        0 <= k < n,
    ensures
        size(f(k)) <= size_sum(f, n),
    decreases n,
{
    sum_within(f, n - 1);
    if k < n - 1 {
        term_within(f, k, n - 1);
    }
}

/// Part of a bounded sum is bounded, and so is each of its terms.
pub proof fn bounded_part(f: spec_fn(int) -> int, m: int, n: int)
    requires
        0 <= m <= n,
        bounded(f, n),
    ensures
        bounded(f, m),
        small(int_sum(f, m)),
        m < n ==> small(f(m)),
    decreases n - m,
{
    if m < n {
        bounded_part(f, m + 1, n);
        sum_within(f, m);
    }
    sum_within(f, m);
}

} // verus!
