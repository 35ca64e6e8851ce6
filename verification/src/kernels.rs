//! The numeric kernels of a forward pass, over a supplied arithmetic.
//!
//! Each kernel computes a fixed expression over the operations of [`crate::scalar`]; its
//! contract is that expression, in the order in which the kernel evaluates it.

use vstd::prelude::*;

use crate::math::{KvHead, LANES};
use crate::order::total_gt;
#[allow(unused_imports)]
use crate::order::total_rank;
use crate::scalar::{
    eval, negate, Scalar, EPSILON, FRAC_1_SQRT_2, HALF, NEGATIVE_ZERO, ONE, POSITION_BASE, TWO,
    ZERO,
};
#[allow(unused_imports)]
use crate::scalar::{is_arithmetic, minus, negated, over, plus, times, value};

verus! {

/// The sum of the products of `n` elements of `x` from `xo` on and of `y` from `yo` on.
pub open spec fn product_sum<A: Fn(Scalar) -> u32>(
    a: A,
    x: Seq<u32>,
    xo: int,
    y: Seq<u32>,
    yo: int,
    n: int,
) -> u32
    decreases n,
{
    if n <= 0 {
        ZERO
    } else {
        plus(a, product_sum(a, x, xo, y, yo, n - 1), times(a, x[xo + n - 1], y[yo + n - 1]))
    }
}

/// The matrix-vector product of a row-major matrix.
pub open spec fn product_of<A: Fn(Scalar) -> u32>(
    a: A,
    w: Seq<u32>,
    x: Seq<u32>,
    d_in: int,
    d_out: nat,
) -> Seq<u32> {
    Seq::new(d_out, |i: int| product_sum(a, w, i * d_in, x, 0, d_in))
}

/// Matrix-vector product `out = W x` for a row-major weight matrix, one element at a time.
pub fn matmul<A: Fn(Scalar) -> u32>(
    out: &mut [u32],
    x: &[u32],
    w: &[u32],
    d_in: usize,
    d_out: usize,
    a: &A,
)
    requires
        is_arithmetic(*a),
        old(out)@.len() == d_out,
        x@.len() == d_in,
        w@.len() == d_out * d_in,
    ensures
        final(out)@ == product_of(*a, w@, x@, d_in as int, d_out as nat),
{
    proof {
        assert(w.len() == w@.len());
    }
    let mut i: usize = 0;
    while i < d_out
        invariant
            i <= d_out,
            is_arithmetic(*a),
            out@.len() == d_out,
            x@.len() == d_in,
            w@.len() == d_out * d_in,
            w@.len() <= usize::MAX,
            forall|k: int|
                0 <= k < i ==> #[trigger] out@[k] == product_sum(
                    *a,
                    w@,
                    k * d_in,
                    x@,
                    0,
                    d_in as int,
                ),
        decreases d_out - i,
    {
        proof {
            assert(0 <= i * d_in && i * d_in + d_in <= d_out * d_in) by (nonlinear_arith)
                requires
                    0 <= i < d_out,
                    0 <= d_in,
            ;
        }
        let row: usize = i * d_in;
        let mut sum: u32 = ZERO;
        let mut j: usize = 0;
        while j < d_in
            invariant
                j <= d_in,
                is_arithmetic(*a),
                x@.len() == d_in,
                row == i * d_in,
                row + d_in <= w@.len(),
                w@.len() <= usize::MAX,
                sum == product_sum(*a, w@, i * d_in, x@, 0, j as int),
            decreases d_in - j,
        {
            let p: u32 = eval(a, Scalar::Mul(w[row + j], x[j]));
            sum = eval(a, Scalar::Add(sum, p));
            j = j + 1;
        }
        out[i] = sum;
        i = i + 1;
    }
    proof {
        assert(out@ =~= product_of(*a, w@, x@, d_in as int, d_out as nat));
    }
}

/// What lane `lane` has gathered after `n` chunks.
pub open spec fn lane_sum<A: Fn(Scalar) -> u32>(
    a: A,
    x: Seq<u32>,
    xo: int,
    y: Seq<u32>,
    yo: int,
    lane: int,
    n: int,
) -> u32
    decreases n,
{
    if n <= 0 {
        ZERO
    } else {
        plus(
            a,
            lane_sum(a, x, xo, y, yo, lane, n - 1),
            times(a, x[xo + (n - 1) * 8 + lane], y[yo + (n - 1) * 8 + lane]),
        )
    }
}

/// The eight lanes after `n` chunks.
pub open spec fn lane_sums<A: Fn(Scalar) -> u32>(
    a: A,
    x: Seq<u32>,
    xo: int,
    y: Seq<u32>,
    yo: int,
    n: int,
) -> Seq<u32> {
    Seq::new(8, |lane: int| lane_sum(a, x, xo, y, yo, lane, n))
}

/// The sum of the lanes, and then of the products from `from` up to `n`.
pub open spec fn tail_sum<A: Fn(Scalar) -> u32>(
    a: A,
    start: u32,
    x: Seq<u32>,
    xo: int,
    y: Seq<u32>,
    yo: int,
    from: int,
    n: int,
) -> u32
    decreases n - from,
{
    if n <= from {
        start
    } else {
        plus(
            a,
            tail_sum(a, start, x, xo, y, yo, from, n - 1),
            times(a, x[xo + n - 1], y[yo + n - 1]),
        )
    }
}

/// The lanes of an array.
pub open spec fn lanes_of(s: Seq<u32>) -> [u32; 8] {
    choose|l: [u32; 8]| l@ == s
}

/// The sum of products as eight lanes gather it: whole chunks lane by lane, the lanes
/// together, then what is left.
pub open spec fn lane_product_sum<A: Fn(Scalar) -> u32>(
    a: A,
    x: Seq<u32>,
    xo: int,
    y: Seq<u32>,
    yo: int,
    n: int,
) -> u32 {
    let chunks = n / 8;
    tail_sum(
        a,
        value(a, Scalar::SumLanes(lanes_of(lane_sums(a, x, xo, y, yo, chunks)))),
        x,
        xo,
        y,
        yo,
        chunks * 8,
        n,
    )
}

/// Equal lanes are one array.
proof fn lanes_are(l: [u32; 8])
    ensures
        lanes_of(l@) == l,
{
    let m = lanes_of(l@);
    assert(m@ == l@);
    assert(m =~= l);
}

/// Matrix-vector product with eight lanes at a time: the same product as [`matmul`], with
/// the additions in another order.
pub fn matmul_simd<A: Fn(Scalar) -> u32>(
    out: &mut [u32],
    x: &[u32],
    w: &[u32],
    d_in: usize,
    d_out: usize,
    a: &A,
)
    requires
        is_arithmetic(*a),
        old(out)@.len() == d_out,
        x@.len() == d_in,
        w@.len() == d_out * d_in,
    ensures
        final(out)@ == Seq::new(
            d_out as nat,
            |i: int| lane_product_sum(*a, w@, i * d_in, x@, 0, d_in as int),
        ),
{
    proof {
        assert(w.len() == w@.len());
    }
    let chunks: usize = d_in / LANES;
    let mut i: usize = 0;
    while i < d_out
        invariant
            i <= d_out,
            chunks == d_in as int / 8,
            is_arithmetic(*a),
            out@.len() == d_out,
            x@.len() == d_in,
            w@.len() == d_out * d_in,
            w@.len() <= usize::MAX,
            forall|k: int|
                0 <= k < i ==> #[trigger] out@[k] == lane_product_sum(
                    *a,
                    w@,
                    k * d_in,
                    x@,
                    0,
                    d_in as int,
                ),
        decreases d_out - i,
    {
        proof {
            assert(0 <= i * d_in && i * d_in + d_in <= d_out * d_in) by (nonlinear_arith)
                requires
                    0 <= i < d_out,
                    0 <= d_in,
            ;
        }
        let row: usize = i * d_in;
        let mut lanes: [u32; LANES] = [ZERO;LANES];
        let mut c: usize = 0;
        while c < chunks
            invariant
                c <= chunks,
                chunks == d_in as int / 8,
                is_arithmetic(*a),
                x@.len() == d_in,
                row == i * d_in,
                row + d_in <= w@.len(),
                w@.len() <= usize::MAX,
                forall|k: int|
                    0 <= k < 8 ==> #[trigger] lanes@[k] == lane_sum(
                        *a,
                        w@,
                        i * d_in,
                        x@,
                        0,
                        k,
                        c as int,
                    ),
            decreases chunks - c,
        {
            let base: usize = c * LANES;
            let ghost before = lanes@;
            let mut k: usize = 0;
            while k < LANES
                invariant
                    k <= 8,
                    c < chunks,
                    chunks == d_in as int / 8,
                    base == c * 8,
                    is_arithmetic(*a),
                    x@.len() == d_in,
                    row == i * d_in,
                    row + d_in <= w@.len(),
                    w@.len() <= usize::MAX,
                    forall|m: int|
                        0 <= m < 8 ==> #[trigger] before[m] == lane_sum(
                            *a,
                            w@,
                            i * d_in,
                            x@,
                            0,
                            m,
                            c as int,
                        ),
                    forall|m: int|
                        0 <= m < k ==> #[trigger] lanes@[m] == lane_sum(
                            *a,
                            w@,
                            i * d_in,
                            x@,
                            0,
                            m,
                            c + 1,
                        ),
                    forall|m: int| k <= m < 8 ==> #[trigger] lanes@[m] == before[m],
                decreases 8 - k,
            {
                let p: u32 = eval(a, Scalar::Mul(w[row + base + k], x[base + k]));
                let s: u32 = eval(a, Scalar::Add(lanes[k], p));
                lanes[k] = s;
                k = k + 1;
            }
            c = c + 1;
        }
        proof {
            assert(lanes@ =~= lane_sums(*a, w@, i * d_in, x@, 0, chunks as int));
            lanes_are(lanes);
        }
        let mut sum: u32 = eval(a, Scalar::SumLanes(lanes));
        let ghost start = sum;
        let mut j: usize = chunks * LANES;
        while j < d_in
            invariant
                chunks * 8 <= j <= d_in,
                is_arithmetic(*a),
                x@.len() == d_in,
                row == i * d_in,
                row + d_in <= w@.len(),
                w@.len() <= usize::MAX,
                sum == tail_sum(*a, start, w@, i * d_in, x@, 0, chunks * 8, j as int),
            decreases d_in - j,
        {
            let p: u32 = eval(a, Scalar::Mul(w[row + j], x[j]));
            sum = eval(a, Scalar::Add(sum, p));
            j = j + 1;
        }
        out[i] = sum;
        i = i + 1;
    }
    proof {
        assert(out@ =~= Seq::new(
            d_out as nat,
            |i: int| lane_product_sum(*a, w@, i * d_in, x@, 0, d_in as int),
        ));
    }
}

/// The sum of the first `n` elements, added up from zero.
pub open spec fn sum_of<A: Fn(Scalar) -> u32>(a: A, x: Seq<u32>, n: int) -> u32
    decreases n,
{
    if n <= 0 {
        ZERO
    } else {
        plus(a, sum_of(a, x, n - 1), x[n - 1])
    }
}

/// Add up all elements from zero.
pub fn sum_all<A: Fn(Scalar) -> u32>(x: &[u32], a: &A) -> (r: u32)
    requires
        is_arithmetic(*a),
    ensures
        r == sum_of(*a, x@, x@.len() as int),
{
    let mut sum: u32 = ZERO;
    let mut i: usize = 0;
    while i < x.len()
        invariant
            i <= x@.len(),
            is_arithmetic(*a),
            sum == sum_of(*a, x@, i as int),
        decreases x@.len() - i,
    {
        sum = eval(a, Scalar::Add(sum, x[i]));
        i = i + 1;
    }
    sum
}

/// The total of the first `n` elements, added up from negative zero: the total of negative
/// zeros is one.
pub open spec fn total_of<A: Fn(Scalar) -> u32>(a: A, x: Seq<u32>, n: int) -> u32
    decreases n,
{
    if n <= 0 {
        NEGATIVE_ZERO
    } else {
        plus(a, total_of(a, x, n - 1), x[n - 1])
    }
}

/// Total all elements.
pub fn total_all<A: Fn(Scalar) -> u32>(x: &[u32], a: &A) -> (r: u32)
    requires
        is_arithmetic(*a),
    ensures
        r == total_of(*a, x@, x@.len() as int),
{
    let mut total: u32 = NEGATIVE_ZERO;
    let mut i: usize = 0;
    while i < x.len()
        invariant
            i <= x@.len(),
            is_arithmetic(*a),
            total == total_of(*a, x@, i as int),
        decreases x@.len() - i,
    {
        total = eval(a, Scalar::Add(total, x[i]));
        i = i + 1;
    }
    total
}

/// The total of the squares of the first `n` elements.
pub open spec fn squares_of<A: Fn(Scalar) -> u32>(a: A, x: Seq<u32>, n: int) -> u32
    decreases n,
{
    if n <= 0 {
        NEGATIVE_ZERO
    } else {
        plus(a, squares_of(a, x, n - 1), times(a, x[n - 1], x[n - 1]))
    }
}

/// One over the root of the mean of the squares, with the norm's epsilon inside the root.
pub open spec fn rms_scale<A: Fn(Scalar) -> u32>(a: A, x: Seq<u32>) -> u32 {
    let mean = over(
        a,
        squares_of(a, x, x.len() as int),
        value(a, Scalar::Count(x.len() as usize)),
    );
    over(a, ONE, value(a, Scalar::Sqrt(plus(a, mean, EPSILON))))
}

/// Root-mean-square norm with gains.
pub open spec fn rmsnorm_of<A: Fn(Scalar) -> u32>(a: A, x: Seq<u32>, w: Seq<u32>) -> Seq<u32> {
    Seq::new(x.len(), |i: int| times(a, times(a, x[i], rms_scale(a, x)), w[i]))
}

/// Root-mean-square norm: every element over the root mean square of all, times its gain.
pub fn rmsnorm<A: Fn(Scalar) -> u32>(out: &mut [u32], x: &[u32], w: &[u32], a: &A)
    requires
        is_arithmetic(*a),
        old(out)@.len() == x@.len(),
        w@.len() == x@.len(),
    ensures
        final(out)@ == rmsnorm_of(*a, x@, w@),
{
    let n: usize = x.len();
    let mut sum: u32 = NEGATIVE_ZERO;
    let mut i: usize = 0;
    while i < n
        invariant
            i <= n,
            n == x@.len(),
            is_arithmetic(*a),
            sum == squares_of(*a, x@, i as int),
        decreases n - i,
    {
        let square: u32 = eval(a, Scalar::Mul(x[i], x[i]));
        sum = eval(a, Scalar::Add(sum, square));
        i = i + 1;
    }
    let count: u32 = eval(a, Scalar::Count(n));
    let mean: u32 = eval(a, Scalar::Div(sum, count));
    let shifted: u32 = eval(a, Scalar::Add(mean, EPSILON));
    let root: u32 = eval(a, Scalar::Sqrt(shifted));
    let scale: u32 = eval(a, Scalar::Div(ONE, root));
    let mut i: usize = 0;
    while i < n
        invariant
            i <= n,
            n == x@.len(),
            n == w@.len(),
            n == out@.len(),
            is_arithmetic(*a),
            scale == rms_scale(*a, x@),
            forall|k: int| 0 <= k < i ==> #[trigger] out@[k] == rmsnorm_of(*a, x@, w@)[k],
        decreases n - i,
    {
        let scaled: u32 = eval(a, Scalar::Mul(x[i], scale));
        out[i] = eval(a, Scalar::Mul(scaled, w[i]));
        i = i + 1;
    }
    proof {
        assert(out@ =~= rmsnorm_of(*a, x@, w@));
    }
}

/// The mean.
pub open spec fn mean_of<A: Fn(Scalar) -> u32>(a: A, x: Seq<u32>) -> u32 {
    over(a, total_of(a, x, x.len() as int), value(a, Scalar::Count(x.len() as usize)))
}

/// The total of the squared distances of the first `n` elements from `mean`.
pub open spec fn square_sum<A: Fn(Scalar) -> u32>(a: A, x: Seq<u32>, mean: u32, n: int) -> u32
    decreases n,
{
    if n <= 0 {
        NEGATIVE_ZERO
    } else {
        plus(
            a,
            square_sum(a, x, mean, n - 1),
            times(a, minus(a, x[n - 1], mean), minus(a, x[n - 1], mean)),
        )
    }
}

/// One over the standard deviation, with the norm's epsilon inside the root. The variance
/// is over all elements, not over one fewer.
pub open spec fn inverse_deviation<A: Fn(Scalar) -> u32>(a: A, x: Seq<u32>) -> u32 {
    let variance = over(
        a,
        square_sum(a, x, mean_of(a, x), x.len() as int),
        value(a, Scalar::Count(x.len() as usize)),
    );
    over(a, ONE, value(a, Scalar::Sqrt(plus(a, variance, EPSILON))))
}

/// Layer norm with gains and biases.
pub open spec fn layernorm_of<A: Fn(Scalar) -> u32>(
    a: A,
    x: Seq<u32>,
    w: Seq<u32>,
    b: Seq<u32>,
) -> Seq<u32> {
    Seq::new(
        x.len(),
        |i: int|
            plus(
                a,
                times(a, times(a, minus(a, x[i], mean_of(a, x)), inverse_deviation(a, x)), w[i]),
                b[i],
            ),
    )
}

/// Layer norm: every element's distance from the mean over the standard deviation, times
/// its gain, plus its bias.
pub fn layernorm<A: Fn(Scalar) -> u32>(out: &mut [u32], x: &[u32], w: &[u32], b: &[u32], a: &A)
    requires
        is_arithmetic(*a),
        old(out)@.len() == x@.len(),
        w@.len() == x@.len(),
        b@.len() == x@.len(),
    ensures
        final(out)@ == layernorm_of(*a, x@, w@, b@),
{
    let n: usize = x.len();
    let count: u32 = eval(a, Scalar::Count(n));
    let sum: u32 = total_all(x, a);
    let mean: u32 = eval(a, Scalar::Div(sum, count));
    let mut squares: u32 = NEGATIVE_ZERO;
    let mut i: usize = 0;
    while i < n
        invariant
            i <= n,
            n == x@.len(),
            is_arithmetic(*a),
            mean == mean_of(*a, x@),
            squares == square_sum(*a, x@, mean, i as int),
        decreases n - i,
    {
        let d: u32 = eval(a, Scalar::Sub(x[i], mean));
        let square: u32 = eval(a, Scalar::Mul(d, d));
        squares = eval(a, Scalar::Add(squares, square));
        i = i + 1;
    }
    let variance: u32 = eval(a, Scalar::Div(squares, count));
    let shifted: u32 = eval(a, Scalar::Add(variance, EPSILON));
    let root: u32 = eval(a, Scalar::Sqrt(shifted));
    let inverse: u32 = eval(a, Scalar::Div(ONE, root));
    let mut i: usize = 0;
    while i < n
        invariant
            i <= n,
            n == x@.len(),
            n == w@.len(),
            n == b@.len(),
            n == out@.len(),
            is_arithmetic(*a),
            mean == mean_of(*a, x@),
            inverse == inverse_deviation(*a, x@),
            forall|k: int| 0 <= k < i ==> #[trigger] out@[k] == layernorm_of(*a, x@, w@, b@)[k],
        decreases n - i,
    {
        let d: u32 = eval(a, Scalar::Sub(x[i], mean));
        let scaled: u32 = eval(a, Scalar::Mul(d, inverse));
        let gained: u32 = eval(a, Scalar::Mul(scaled, w[i]));
        out[i] = eval(a, Scalar::Add(gained, b[i]));
        i = i + 1;
    }
    proof {
        assert(out@ =~= layernorm_of(*a, x@, w@, b@));
    }
}

/// The greatest of the first `n` elements in the total order.
pub open spec fn greatest(x: Seq<u32>, n: int) -> u32
    decreases n,
{
    if n <= 1 {
        x[0]
    } else if total_rank(x[n - 1]) > total_rank(greatest(x, n - 1)) {
        x[n - 1]
    } else {
        greatest(x, n - 1)
    }
}

/// Find the greatest element in the total order.
pub fn greatest_of(x: &[u32]) -> (r: u32)
    requires
        x@.len() > 0,
    ensures
        r == greatest(x@, x@.len() as int),
{
    let mut best: u32 = x[0];
    let mut i: usize = 1;
    while i < x.len()
        invariant
            1 <= i <= x@.len(),
            best == greatest(x@, i as int),
        decreases x@.len() - i,
    {
        if total_gt(x[i], best) {
            best = x[i];
        }
        i = i + 1;
    }
    best
}

/// The exponentials of the distances from the greatest element.
pub open spec fn shifted_exponentials<A: Fn(Scalar) -> u32>(a: A, x: Seq<u32>) -> Seq<u32> {
    Seq::new(
        x.len(),
        |i: int| value(a, Scalar::Exp(minus(a, x[i], greatest(x, x.len() as int)))),
    )
}

/// The softmax.
pub open spec fn softmax_of<A: Fn(Scalar) -> u32>(a: A, x: Seq<u32>) -> Seq<u32> {
    let e = shifted_exponentials(a, x);
    Seq::new(x.len(), |i: int| over(a, e[i], sum_of(a, e, e.len() as int)))
}

/// Softmax in place: exponentials of the distances from the greatest element, divided by
/// their sum.
pub fn softmax<A: Fn(Scalar) -> u32>(x: &mut [u32], a: &A)
    requires
        is_arithmetic(*a),
        old(x)@.len() > 0,
    ensures
        final(x)@ == softmax_of(*a, old(x)@),
{
    let ghost start = x@;
    let ghost e = shifted_exponentials(*a, start);
    let n: usize = x.len();
    let max: u32 = greatest_of(x);
    let mut sum: u32 = ZERO;
    let mut i: usize = 0;
    while i < n
        invariant
            i <= n,
            n == x@.len(),
            n == start.len(),
            is_arithmetic(*a),
            max == greatest(start, n as int),
            e == shifted_exponentials(*a, start),
            sum == sum_of(*a, e, i as int),
            forall|k: int| 0 <= k < i ==> #[trigger] x@[k] == e[k],
            forall|k: int| i <= k < n ==> #[trigger] x@[k] == start[k],
        decreases n - i,
    {
        let shifted: u32 = eval(a, Scalar::Sub(x[i], max));
        let p: u32 = eval(a, Scalar::Exp(shifted));
        x[i] = p;
        sum = eval(a, Scalar::Add(sum, p));
        i = i + 1;
    }
    let mut i: usize = 0;
    while i < n
        invariant
            i <= n,
            n == x@.len(),
            n == e.len(),
            n == start.len(),
            is_arithmetic(*a),
            e == shifted_exponentials(*a, start),
            sum == sum_of(*a, e, n as int),
            forall|k: int| 0 <= k < i ==> #[trigger] x@[k] == over(*a, e[k], sum),
            forall|k: int| i <= k < n ==> #[trigger] x@[k] == e[k],
        decreases n - i,
    {
        let p: u32 = eval(a, Scalar::Div(x[i], sum));
        x[i] = p;
        i = i + 1;
    }
    proof {
        assert(x@ =~= softmax_of(*a, start));
    }
}

/// `z / (1 + e^-z)`.
pub open spec fn silu_of<A: Fn(Scalar) -> u32>(a: A, z: u32) -> u32 {
    over(a, z, plus(a, ONE, value(a, Scalar::Exp(negated(z)))))
}

/// SiLU, or swish: `z / (1 + e^-z)`.
pub fn silu<A: Fn(Scalar) -> u32>(z: u32, a: &A) -> (r: u32)
    requires
        is_arithmetic(*a),
    ensures
        r == silu_of(*a, z),
{
    let e: u32 = eval(a, Scalar::Exp(negate(z)));
    let d: u32 = eval(a, Scalar::Add(ONE, e));
    eval(a, Scalar::Div(z, d))
}

/// `0.5 z (1 + erf(z / sqrt 2))`.
pub open spec fn gelu_of<A: Fn(Scalar) -> u32>(a: A, z: u32) -> u32 {
    times(
        a,
        times(a, HALF, z),
        plus(a, ONE, value(a, Scalar::Erf(times(a, z, FRAC_1_SQRT_2)))),
    )
}

/// GELU with the exact error function.
pub fn gelu<A: Fn(Scalar) -> u32>(z: u32, a: &A) -> (r: u32)
    requires
        is_arithmetic(*a),
    ensures
        r == gelu_of(*a, z),
{
    let scaled: u32 = eval(a, Scalar::Mul(z, FRAC_1_SQRT_2));
    let e: u32 = eval(a, Scalar::Erf(scaled));
    let s: u32 = eval(a, Scalar::Add(ONE, e));
    let half: u32 = eval(a, Scalar::Mul(HALF, z));
    eval(a, Scalar::Mul(half, s))
}

/// Elementwise sum.
pub open spec fn added<A: Fn(Scalar) -> u32>(a: A, x: Seq<u32>, y: Seq<u32>) -> Seq<u32> {
    Seq::new(x.len(), |i: int| plus(a, x[i], y[i]))
}

/// Add `src` into `dst`, element by element.
pub fn accumulate<A: Fn(Scalar) -> u32>(dst: &mut [u32], src: &[u32], a: &A)
    requires
        is_arithmetic(*a),
        old(dst)@.len() == src@.len(),
    ensures
        final(dst)@ == added(*a, old(dst)@, src@),
{
    let ghost start = dst@;
    let n: usize = src.len();
    let mut i: usize = 0;
    while i < n
        invariant
            i <= n,
            n == src@.len(),
            n == dst@.len(),
            n == start.len(),
            is_arithmetic(*a),
            forall|k: int| 0 <= k < i ==> #[trigger] dst@[k] == plus(*a, start[k], src@[k]),
            forall|k: int| i <= k < n ==> #[trigger] dst@[k] == start[k],
        decreases n - i,
    {
        let s: u32 = eval(a, Scalar::Add(dst[i], src[i]));
        dst[i] = s;
        i = i + 1;
    }
    proof {
        assert(dst@ =~= added(*a, start, src@));
    }
}

/// Add a bias into a linear layer's output.
pub fn add_bias<A: Fn(Scalar) -> u32>(out: &mut [u32], bias: &[u32], a: &A)
    requires
        is_arithmetic(*a),
        old(out)@.len() == bias@.len(),
    ensures
        final(out)@ == added(*a, old(out)@, bias@),
{
    accumulate(out, bias, a);
}

/// The angle of pair `i` at `pos`: the position over a power of the base that grows with
/// the place within the head.
pub open spec fn rotation_angle<A: Fn(Scalar) -> u32>(
    a: A,
    pos: usize,
    head_size: usize,
    i: int,
) -> u32 {
    let place = value(a, Scalar::Count((i % head_size as int) as usize));
    let exponent = over(a, place, value(a, Scalar::Count(head_size)));
    let frequency = over(a, ONE, value(a, Scalar::Pow(POSITION_BASE, exponent)));
    times(a, value(a, Scalar::Count(pos)), frequency)
}

/// A vector with its pairs rotated: each pair by its angle.
pub open spec fn rotated<A: Fn(Scalar) -> u32>(
    a: A,
    v: Seq<u32>,
    pos: usize,
    head_size: usize,
) -> Seq<u32> {
    Seq::new(
        v.len(),
        |k: int|
            {
                let i = k - k % 2;
                let angle = rotation_angle(a, pos, head_size, i);
                let cos = value(a, Scalar::Cos(angle));
                let sin = value(a, Scalar::Sin(angle));
                if k % 2 == 0 {
                    minus(a, times(a, v[i], cos), times(a, v[i + 1], sin))
                } else {
                    plus(a, times(a, v[i], sin), times(a, v[i + 1], cos))
                }
            },
    )
}

/// Rotate one pair.
fn rotate_pair<A: Fn(Scalar) -> u32>(v: &mut [u32], i: usize, cos: u32, sin: u32, a: &A)
    requires
        is_arithmetic(*a),
        i + 1 < old(v)@.len(),
    ensures
        final(v)@ == old(v)@.update(
            i as int,
            minus(
                *a,
                times(*a, old(v)@[i as int], cos),
                times(*a, old(v)@[i + 1], sin),
            ),
        ).update(
            i + 1,
            plus(*a, times(*a, old(v)@[i as int], sin), times(*a, old(v)@[i + 1], cos)),
        ),
{
    let v0: u32 = v[i];
    let v1: u32 = v[i + 1];
    let a0: u32 = eval(a, Scalar::Mul(v0, cos));
    let a1: u32 = eval(a, Scalar::Mul(v1, sin));
    let b0: u32 = eval(a, Scalar::Mul(v0, sin));
    let b1: u32 = eval(a, Scalar::Mul(v1, cos));
    v[i] = eval(a, Scalar::Sub(a0, a1));
    v[i + 1] = eval(a, Scalar::Add(b0, b1));
}

/// Rotary position embedding in place: the query's pairs over all of `dim`, and the key's
/// pairs over `kv_dim` only.
pub fn rope<A: Fn(Scalar) -> u32>(
    q: &mut [u32],
    k: &mut [u32],
    pos: usize,
    head_size: usize,
    dim: usize,
    kv_dim: usize,
    a: &A,
)
    requires
        is_arithmetic(*a),
        head_size > 0,
        dim % 2 == 0,
        kv_dim % 2 == 0,
        kv_dim <= dim,
        old(q)@.len() >= dim,
        old(k)@.len() >= kv_dim,
    ensures
        final(q)@ == rotated(*a, old(q)@.take(dim as int), pos, head_size) + old(q)@.skip(
            dim as int,
        ),
        final(k)@ == rotated(*a, old(k)@.take(kv_dim as int), pos, head_size) + old(k)@.skip(
            kv_dim as int,
        ),
{
    let ghost q_start = q@;
    let ghost k_start = k@;
    let ghost q_turned = rotated(*a, q@.take(dim as int), pos, head_size);
    let ghost k_turned = rotated(*a, k@.take(kv_dim as int), pos, head_size);
    let size: u32 = eval(a, Scalar::Count(head_size));
    let place: u32 = eval(a, Scalar::Count(pos));
    let mut i: usize = 0;
    while i < dim
        invariant
            i <= dim,
            i % 2 == 0,
            is_arithmetic(*a),
            head_size > 0,
            dim % 2 == 0,
            kv_dim % 2 == 0,
            kv_dim <= dim,
            q@.len() == q_start.len(),
            k@.len() == k_start.len(),
            q_start.len() >= dim,
            k_start.len() >= kv_dim,
            size == value(*a, Scalar::Count(head_size)),
            place == value(*a, Scalar::Count(pos)),
            q_turned == rotated(*a, q_start.take(dim as int), pos, head_size),
            k_turned == rotated(*a, k_start.take(kv_dim as int), pos, head_size),
            forall|m: int| 0 <= m < i ==> #[trigger] q@[m] == q_turned[m],
            forall|m: int| i <= m < q_start.len() ==> #[trigger] q@[m] == q_start[m],
            forall|m: int| 0 <= m < i && m < kv_dim ==> #[trigger] k@[m] == k_turned[m],
            forall|m: int|
                (i <= m || kv_dim <= m) && 0 <= m < k_start.len() ==> #[trigger] k@[m]
                    == k_start[m],
        decreases dim - i,
    {
        let within: u32 = eval(a, Scalar::Count(i % head_size));
        let exponent: u32 = eval(a, Scalar::Div(within, size));
        let power: u32 = eval(a, Scalar::Pow(POSITION_BASE, exponent));
        let frequency: u32 = eval(a, Scalar::Div(ONE, power));
        let angle: u32 = eval(a, Scalar::Mul(place, frequency));
        let cos: u32 = eval(a, Scalar::Cos(angle));
        let sin: u32 = eval(a, Scalar::Sin(angle));
        proof {
            assert(angle == rotation_angle(*a, pos, head_size, i as int));
            assert((i + 1) - (i + 1) % 2 == i);
        }
        rotate_pair(q, i, cos, sin, a);
        if i < kv_dim {
            rotate_pair(k, i, cos, sin, a);
        }
        i = i + 2;
    }
    proof {
        assert(q@ =~= q_turned + q_start.skip(dim as int));
        assert(k@ =~= k_turned + k_start.skip(kv_dim as int));
    }
}

/// The frequency of entry `k` of a position encoding of `dim` entries.
pub open spec fn encoding_frequency<A: Fn(Scalar) -> u32>(a: A, k: usize, dim: usize) -> u32 {
    let twice = times(a, TWO, value(a, Scalar::Count(k)));
    let exponent = over(a, twice, value(a, Scalar::Count(dim)));
    over(a, ONE, value(a, Scalar::Pow(POSITION_BASE, exponent)))
}

/// The position encoding of `pos`: sines in the first half, which is the larger one, and
/// cosines in the second.
pub open spec fn sinusoidal_of<A: Fn(Scalar) -> u32>(a: A, pos: usize, dim: usize) -> Seq<u32> {
    let half = (dim + 1) / 2;
    let p = value(a, Scalar::Count(pos));
    Seq::new(
        dim as nat,
        |i: int|
            if i < half {
                value(
                    a,
                    Scalar::Sin(times(a, p, encoding_frequency(a, i as usize, dim))),
                )
            } else {
                value(
                    a,
                    Scalar::Cos(times(a, p, encoding_frequency(a, (i - half) as usize, dim))),
                )
            },
    )
}

/// Compute the frequency of entry `k`.
fn frequency_of<A: Fn(Scalar) -> u32>(k: usize, dim: usize, a: &A) -> (r: u32)
    requires
        is_arithmetic(*a),
    ensures
        r == encoding_frequency(*a, k, dim),
{
    let index: u32 = eval(a, Scalar::Count(k));
    let twice: u32 = eval(a, Scalar::Mul(TWO, index));
    let size: u32 = eval(a, Scalar::Count(dim));
    let exponent: u32 = eval(a, Scalar::Div(twice, size));
    let power: u32 = eval(a, Scalar::Pow(POSITION_BASE, exponent));
    eval(a, Scalar::Div(ONE, power))
}

/// Write the position encoding of `pos`: the sines of all frequencies, then the cosines.
pub fn sinusoidal_into<A: Fn(Scalar) -> u32>(buf: &mut [u32], pos: usize, dim: usize, a: &A)
    requires
        is_arithmetic(*a),
        old(buf)@.len() == dim,
    ensures
        final(buf)@ == sinusoidal_of(*a, pos, dim),
{
    let half: usize = dim / 2 + dim % 2;
    let p: u32 = eval(a, Scalar::Count(pos));
    let mut i: usize = 0;
    while i < dim
        invariant
            i <= dim,
            half == (dim + 1) / 2,
            buf@.len() == dim,
            is_arithmetic(*a),
            p == value(*a, Scalar::Count(pos)),
            forall|k: int| 0 <= k < i ==> #[trigger] buf@[k] == sinusoidal_of(*a, pos, dim)[k],
        decreases dim - i,
    {
        if i < half {
            let frequency: u32 = frequency_of(i, dim, a);
            let angle: u32 = eval(a, Scalar::Mul(p, frequency));
            buf[i] = eval(a, Scalar::Sin(angle));
        } else {
            let frequency: u32 = frequency_of(i - half, dim, a);
            let angle: u32 = eval(a, Scalar::Mul(p, frequency));
            buf[i] = eval(a, Scalar::Cos(angle));
        }
        i = i + 1;
    }
    proof {
        assert(buf@ =~= sinusoidal_of(*a, pos, dim));
    }
}

/// The square root of the dimension.
pub open spec fn embed_scale_of<A: Fn(Scalar) -> u32>(a: A, dim: usize) -> u32 {
    value(a, Scalar::Sqrt(value(a, Scalar::Count(dim))))
}

/// The factor on embeddings: the square root of the dimension.
pub fn embed_scale<A: Fn(Scalar) -> u32>(dim: usize, a: &A) -> (r: u32)
    requires
        is_arithmetic(*a),
    ensures
        r == embed_scale_of(*a, dim),
{
    let n: u32 = eval(a, Scalar::Count(dim));
    eval(a, Scalar::Sqrt(n))
}

/// `n` vectors of `size` elements, each `stride` behind the one before, the first at `off`.
pub open spec fn rows_of(
    flat: Seq<u32>,
    stride: int,
    off: int,
    size: int,
    n: nat,
) -> Seq<Seq<u32>> {
    Seq::new(n, |t: int| flat.subrange(t * stride + off, t * stride + off + size))
}

/// The scaled products of a query with every key.
pub open spec fn attention_scores<A: Fn(Scalar) -> u32>(
    a: A,
    q: Seq<u32>,
    keys: Seq<Seq<u32>>,
    scale: u32,
) -> Seq<u32> {
    Seq::new(
        keys.len(),
        |t: int| times(a, product_sum(a, q, 0, keys[t], 0, q.len() as int), scale),
    )
}

/// Element `i` of the weighted sum of the first `n` vectors.
pub open spec fn weighted_sum<A: Fn(Scalar) -> u32>(
    a: A,
    weights: Seq<u32>,
    values: Seq<Seq<u32>>,
    i: int,
    n: int,
) -> u32
    decreases n,
{
    if n <= 0 {
        ZERO
    } else {
        plus(
            a,
            weighted_sum(a, weights, values, i, n - 1),
            times(a, weights[n - 1], values[n - 1][i]),
        )
    }
}

/// What a query head attends to: the values, weighted by the softmax of the scores.
pub open spec fn attention_of<A: Fn(Scalar) -> u32>(
    a: A,
    q: Seq<u32>,
    keys: Seq<Seq<u32>>,
    values: Seq<Seq<u32>>,
    scale: u32,
) -> Seq<u32> {
    let weights = softmax_of(a, attention_scores(a, q, keys, scale));
    Seq::new(q.len(), |i: int| weighted_sum(a, weights, values, i, keys.len() as int))
}

/// The product of a query with a key.
fn score_of<A: Fn(Scalar) -> u32>(q: &[u32], key: &[u32], scale: u32, a: &A) -> (r: u32)
    requires
        is_arithmetic(*a),
        key@.len() == q@.len(),
    ensures
        r == times(*a, product_sum(*a, q@, 0, key@, 0, q@.len() as int), scale),
{
    let n: usize = q.len();
    let mut sum: u32 = ZERO;
    let mut i: usize = 0;
    while i < n
        invariant
            i <= n,
            n == q@.len(),
            n == key@.len(),
            is_arithmetic(*a),
            sum == product_sum(*a, q@, 0, key@, 0, i as int),
        decreases n - i,
    {
        let p: u32 = eval(a, Scalar::Mul(q[i], key[i]));
        sum = eval(a, Scalar::Add(sum, p));
        i = i + 1;
    }
    eval(a, Scalar::Mul(sum, scale))
}

/// Add a weighted vector into `out`.
fn add_weighted<A: Fn(Scalar) -> u32>(out: &mut [u32], weight: u32, v: &[u32], a: &A)
    requires
        is_arithmetic(*a),
        old(out)@.len() == v@.len(),
    ensures
        final(out)@ == Seq::new(
            v@.len(),
            |i: int| plus(*a, old(out)@[i], times(*a, weight, v@[i])),
        ),
{
    let ghost start = out@;
    let n: usize = v.len();
    let mut i: usize = 0;
    while i < n
        invariant
            i <= n,
            n == v@.len(),
            n == out@.len(),
            n == start.len(),
            is_arithmetic(*a),
            forall|k: int|
                0 <= k < i ==> #[trigger] out@[k] == plus(
                    *a,
                    start[k],
                    times(*a, weight, v@[k]),
                ),
            forall|k: int| i <= k < n ==> #[trigger] out@[k] == start[k],
        decreases n - i,
    {
        let p: u32 = eval(a, Scalar::Mul(weight, v[i]));
        let s: u32 = eval(a, Scalar::Add(out[i], p));
        out[i] = s;
        i = i + 1;
    }
    proof {
        assert(out@ =~= Seq::new(
            v@.len(),
            |i: int| plus(*a, start[i], times(*a, weight, v@[i])),
        ));
    }
}

/// Attention of one query head to the first `n_valid` positions of a cache.
///
/// The one path behind causal attention, where the positions are those up to the current
/// one, and full attention, where they are all there are.
pub fn attention_head<A: Fn(Scalar) -> u32>(
    out: &mut [u32],
    q: &[u32],
    kv: &KvHead<'_, u32>,
    n_valid: usize,
    scale: u32,
    scores: &mut [u32],
    a: &A,
)
    requires
        is_arithmetic(*a),
        0 < n_valid <= old(scores)@.len(),
        old(out)@.len() == q@.len(),
        forall|t: int| 0 <= t < n_valid ==> #[trigger] kv.holds(t, q@.len() as int),
    ensures
        ({
            let size = q@.len() as int;
            let keys = rows_of(
                kv.keys@,
                kv.stride as int,
                kv.head_off as int,
                size,
                n_valid as nat,
            );
            let values = rows_of(
                kv.values@,
                kv.stride as int,
                kv.head_off as int,
                size,
                n_valid as nat,
            );
            &&& final(out)@ == attention_of(*a, q@, keys, values, scale)
            &&& final(scores)@ == softmax_of(*a, attention_scores(*a, q@, keys, scale)) + old(
                scores,
            )@.skip(n_valid as int)
        }),
{
    let size: usize = q.len();
    let ghost keys = rows_of(
        kv.keys@,
        kv.stride as int,
        kv.head_off as int,
        size as int,
        n_valid as nat,
    );
    let ghost values = rows_of(
        kv.values@,
        kv.stride as int,
        kv.head_off as int,
        size as int,
        n_valid as nat,
    );
    let ghost raw = attention_scores(*a, q@, keys, scale);
    let ghost start = scores@;
    let mut t: usize = 0;
    while t < n_valid
        invariant
            t <= n_valid,
            n_valid <= scores@.len(),
            scores@.len() == start.len(),
            size == q@.len(),
            is_arithmetic(*a),
            keys == rows_of(
                kv.keys@,
                kv.stride as int,
                kv.head_off as int,
                size as int,
                n_valid as nat,
            ),
            raw == attention_scores(*a, q@, keys, scale),
            forall|t: int| 0 <= t < n_valid ==> #[trigger] kv.holds(t, q@.len() as int),
            forall|k: int| 0 <= k < t ==> #[trigger] scores@[k] == raw[k],
            forall|k: int| t <= k < start.len() ==> #[trigger] scores@[k] == start[k],
        decreases n_valid - t,
    {
        proof {
            assert(kv.holds(t as int, q@.len() as int));
            assert(0 <= t * kv.stride) by (nonlinear_arith);
        }
        let key = kv.key(t, size);
        proof {
            assert(key@ == keys[t as int]);
        }
        scores[t] = score_of(q, key, scale, a);
        t = t + 1;
    }
    let (head, _rest) = scores.split_at_mut(n_valid);
    proof {
        assert(head@ =~= raw);
    }
    softmax(head, a);
    let ghost weights = softmax_of(*a, raw);
    let mut i: usize = 0;
    while i < size
        invariant
            i <= size,
            size == out@.len(),
            forall|k: int| 0 <= k < i ==> #[trigger] out@[k] == ZERO,
        decreases size - i,
    {
        out[i] = ZERO;
        i = i + 1;
    }
    let mut t: usize = 0;
    while t < n_valid
        invariant
            t <= n_valid,
            n_valid == head@.len(),
            head@ == weights,
            size == q@.len(),
            size == out@.len(),
            is_arithmetic(*a),
            values == rows_of(
                kv.values@,
                kv.stride as int,
                kv.head_off as int,
                size as int,
                n_valid as nat,
            ),
            forall|t: int| 0 <= t < n_valid ==> #[trigger] kv.holds(t, q@.len() as int),
            forall|k: int|
                0 <= k < size ==> #[trigger] out@[k] == weighted_sum(
                    *a,
                    weights,
                    values,
                    k,
                    t as int,
                ),
        decreases n_valid - t,
    {
        proof {
            assert(kv.holds(t as int, q@.len() as int));
            assert(0 <= t * kv.stride) by (nonlinear_arith);
        }
        let v = kv.value(t, size);
        proof {
            assert(v@ == values[t as int]);
        }
        add_weighted(out, head[t], v, a);
        t = t + 1;
    }
    proof {
        assert(out@ =~= attention_of(*a, q@, keys, values, scale));
    }
}

} // verus!
