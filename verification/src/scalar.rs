//! Single-precision arithmetic as the numeric kernels see it.
//!
//! Values are 32-bit patterns, and the arithmetic on them is supplied by the caller: a
//! closure from an operation to its result. Nothing is asked of it but that it answers, and
//! answers the same operation the same way. What a kernel computes is then a fixed
//! expression over these operations, whatever they are.

use vstd::prelude::*;

verus! {

/// An operation on single-precision bit patterns.
#[derive(Debug, Clone, Copy)]
pub enum Scalar {
    /// `a + b`.
    Add(u32, u32),
    /// `a - b`.
    Sub(u32, u32),
    /// `a * b`.
    Mul(u32, u32),
    /// `a / b`.
    Div(u32, u32),
    /// The square root.
    Sqrt(u32),
    /// The exponential function.
    Exp(u32),
    /// The sine.
    Sin(u32),
    /// The cosine.
    Cos(u32),
    /// The error function.
    Erf(u32),
    /// `a` to the power of `b`.
    Pow(u32, u32),
    /// The value of a count.
    Count(usize),
    /// The value of an integer.
    Int(i32),
    /// The nearest integer, halfway cases away from zero, clamped to a signed byte; the
    /// byte is the low eight bits of the result.
    Nearest(u32),
    /// The sum of eight lanes, as a vector unit adds them.
    SumLanes([u32; 8]),
}

/// Zero.
pub const ZERO: u32 = 0;

/// Negative zero, to which adding a value gives the value: where a sum of values starts.
pub const NEGATIVE_ZERO: u32 = 0x8000_0000;

/// One.
pub const ONE: u32 = 0x3f80_0000;

/// One half.
pub const HALF: u32 = 0x3f00_0000;

/// Two.
pub const TWO: u32 = 0x4000_0000;

/// The `1e-5` of the norms.
pub const EPSILON: u32 = 0x3727_c5ac;

/// The `10000` of the position encodings.
pub const POSITION_BASE: u32 = 0x461c_4000;

/// The `127` of the quantized range.
pub const RAIL: u32 = 0x42fe_0000;

/// One over the square root of two.
pub const FRAC_1_SQRT_2: u32 = 0x3f35_04f3;

/// Whether `a` is an arithmetic: it takes every operation, and answers each in one way.
pub open spec fn is_arithmetic<A: Fn(Scalar) -> u32>(a: A) -> bool {
    &&& forall|s: Scalar| #[trigger] call_requires(a, (s,))
    &&& forall|s: Scalar, p: u32, q: u32| #[trigger]
        call_ensures(a, (s,), p) && #[trigger] call_ensures(a, (s,), q) ==> p == q
}

/// What the arithmetic answers.
pub open spec fn value<A: Fn(Scalar) -> u32>(a: A, s: Scalar) -> u32 {
    choose|r: u32| call_ensures(a, (s,), r)
}

/// Ask the arithmetic.
pub fn eval<A: Fn(Scalar) -> u32>(a: &A, s: Scalar) -> (r: u32)
    requires
        is_arithmetic(*a),
    ensures
        r == value(*a, s),
{
    let r: u32 = a(s);
    proof {
        assert(call_ensures(*a, (s,), r));
        assert(call_ensures(*a, (s,), value(*a, s)));
    }
    r
}

/// `x + y`.
pub open spec fn plus<A: Fn(Scalar) -> u32>(a: A, x: u32, y: u32) -> u32 {
    value(a, Scalar::Add(x, y))
}

/// `x - y`.
pub open spec fn minus<A: Fn(Scalar) -> u32>(a: A, x: u32, y: u32) -> u32 {
    value(a, Scalar::Sub(x, y))
}

/// `x * y`.
pub open spec fn times<A: Fn(Scalar) -> u32>(a: A, x: u32, y: u32) -> u32 {
    value(a, Scalar::Mul(x, y))
}

/// `x / y`.
pub open spec fn over<A: Fn(Scalar) -> u32>(a: A, x: u32, y: u32) -> u32 {
    value(a, Scalar::Div(x, y))
}

/// `-x`: the pattern with its sign bit turned over.
pub open spec fn negated(x: u32) -> u32 {
    if x < 0x8000_0000 {
        (x + 0x8000_0000) as u32
    } else {
        (x - 0x8000_0000) as u32
    }
}

/// `-x`.
pub fn negate(x: u32) -> (r: u32)
    ensures
        r == negated(x),
{
    if x < 0x8000_0000 {
        x + 0x8000_0000
    } else {
        x - 0x8000_0000
    }
}

/// `|x|`: the pattern without its sign bit.
pub open spec fn absolute(x: u32) -> u32 {
    if x < 0x8000_0000 {
        x
    } else {
        (x - 0x8000_0000) as u32
    }
}

/// `|x|`.
pub fn abs(x: u32) -> (r: u32)
    ensures
        r == absolute(x),
{
    if x < 0x8000_0000 {
        x
    } else {
        x - 0x8000_0000
    }
}

} // verus!
