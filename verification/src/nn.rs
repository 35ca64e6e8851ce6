//! Kernels of a 1-D convolutional network, in integers and in full precision.
//!
//! Everything is row-major and channel-major: a signal of `c` channels and length `l` is
//! `[c, l]`, a convolution weight is `[c_out, c_in, k]`. Convolutions use no padding and
//! no dilation.

use vstd::prelude::*;

use crate::kernels::total_all;
#[allow(unused_imports)]
use crate::kernels::{tail_sum, total_of};
#[allow(unused_imports)]
use crate::math::{byte_product, dot, fits, short_dots_fit};
use crate::quant::requantize;
#[allow(unused_imports)]
use crate::quant::requantized;
use crate::scalar::{eval, Scalar, ONE, ZERO};
#[allow(unused_imports)]
use crate::scalar::{is_arithmetic, over, times, value};

verus! {

/// Output length of a convolution over an input of length `l_in`.
pub open spec fn out_len(l_in: nat, k: nat, stride: nat) -> nat {
    ((l_in - k) as nat / stride + 1) as nat
}

/// Output length of a convolution over an input of length `l_in`: `(l_in - k) / stride + 1`.
pub fn conv1d_out_len(l_in: usize, k: usize, stride: usize) -> (r: usize)
    requires
        k <= l_in,
        stride >= 1,
        out_len(l_in as nat, k as nat, stride as nat) <= usize::MAX,
    ensures
        r == out_len(l_in as nat, k as nat, stride as nat),
{
    (l_in - k) / stride + 1
}

/// A value cut off to a range.
pub open spec fn clamped(v: int, low: i8, high: i8) -> i8 {
    if v < low {
        low
    } else if v > high {
        high
    } else {
        v as i8
    }
}

/// A value cut off to a range.
fn clamp_i8(v: i32, low: i8, high: i8) -> (r: i8)
    requires
        low <= high,
    ensures
        r == clamped(v as int, low, high),
{
    if v < low as i32 {
        low
    } else if v > high as i32 {
        high
    } else {
        v as i8
    }
}

/// The shape of a convolution.
#[derive(Clone, Copy, Debug, PartialEq, Eq, Structural)]
pub struct ConvShape {
    /// Input channels.
    pub c_in: usize,
    /// Output channels.
    pub c_out: usize,
    /// Input length.
    pub l_in: usize,
    /// Kernel length.
    pub k: usize,
    /// Stride.
    pub stride: usize,
}

impl ConvShape {
    /// Output length.
    pub open spec fn l_out(self) -> nat {
        out_len(self.l_in as nat, self.k as nat, self.stride as nat)
    }

    /// Where the kernel of output channel `o` for input channel `i` begins.
    pub open spec fn kernel_at(self, o: int, i: int) -> int {
        (o * self.c_in + i) * self.k
    }

    /// Where the input that output position `t` sees of channel `i` begins.
    pub open spec fn input_at(self, i: int, t: int) -> int {
        i * self.l_in + t * self.stride
    }
}

/// The sum over the first `n` input channels of the kernel's dot product with the input,
/// for output channel `o` at position `t`.
pub open spec fn channel_sum(
    shape: ConvShape,
    weight: Seq<i8>,
    input: Seq<i8>,
    o: int,
    t: int,
    n: int,
) -> int
    decreases n,
{
    if n <= 0 {
        0
    } else {
        channel_sum(shape, weight, input, o, t, n - 1) + dot(
            weight,
            input,
            shape.kernel_at(o, n - 1),
            shape.input_at(n - 1, t),
            shape.k as int,
        )
    }
}

/// A partial sum of the convolution: the bias, all taps of the first `i` channels, and
/// the first `j` taps of channel `i`.
pub open spec fn partial_sum(
    shape: ConvShape,
    weight: Seq<i8>,
    input: Seq<i8>,
    bias: int,
    o: int,
    t: int,
    i: int,
    j: int,
) -> int {
    bias + channel_sum(shape, weight, input, o, t, i) + dot(
        weight,
        input,
        shape.kernel_at(o, i),
        shape.input_at(i, t),
        j,
    )
}

/// The convolution at output channel `o`, position `t`: the bias plus every kernel tap
/// times the input under it.
pub open spec fn conv_sum(
    shape: ConvShape,
    weight: Seq<i8>,
    input: Seq<i8>,
    bias: int,
    o: int,
    t: int,
) -> int {
    bias + channel_sum(shape, weight, input, o, t, shape.c_in as int)
}

/// Whether buffers of the given lengths match a shape, and no sum leaves the range of
/// `i32`.
pub open spec fn conv_ready(
    shape: ConvShape,
    out_len: nat,
    input: Seq<i8>,
    weight: Seq<i8>,
    bias: Seq<i32>,
    mult: Seq<i32>,
    shift: Seq<i32>,
) -> bool {
    &&& 1 <= shape.k <= shape.l_in
    &&& shape.stride >= 1
    &&& out_len == shape.c_out * shape.l_out()
    &&& input.len() == shape.c_in * shape.l_in
    &&& weight.len() == shape.c_out * shape.c_in * shape.k
    &&& bias.len() == shape.c_out
    &&& mult.len() == shape.c_out
    &&& shift.len() == shape.c_out
    &&& forall|o: int| 0 <= o < shape.c_out ==> #[trigger] shift[o] >= -30
    &&& forall|o: int, t: int, i: int, j: int|
        0 <= o < shape.c_out && 0 <= t < shape.l_out() && 0 <= i < shape.c_in && 0 <= j <= shape.k
            ==> fits(#[trigger] partial_sum(shape, weight, input, bias[o] as int, o, t, i, j))
}

/// A convolution whose kernels are short enough for the bias never leaves the range of
/// `i32`: every partial sum is within 16384 per tap of the bias.
pub proof fn short_convolutions_fit(
    shape: ConvShape,
    weight: Seq<i8>,
    input: Seq<i8>,
    bias: int,
    o: int,
    t: int,
    i: int,
    j: int,
)
    requires
        0 <= i < shape.c_in,
        0 <= j <= shape.k,
        shape.c_in * shape.k < 0x2_0000,
        i32::MIN + 16384 * (shape.c_in * shape.k) <= bias <= i32::MAX - 16384 * (shape.c_in
            * shape.k),
    ensures
        fits(partial_sum(shape, weight, input, bias, o, t, i, j)),
{
    let taps = shape.c_in * shape.k;
    assert(0 <= i * shape.k && i * shape.k + shape.k <= shape.c_in * shape.k) by (nonlinear_arith)
        requires
            0 <= i < shape.c_in,
            shape.k >= 0,
    ;
    channel_sum_range(shape, weight, input, o, t, i);
    short_dots_fit(weight, input, shape.kernel_at(o, i), shape.input_at(i, t), j);
    let sum = channel_sum(shape, weight, input, o, t, i);
    let tail = dot(weight, input, shape.kernel_at(o, i), shape.input_at(i, t), j);
    assert(-16384 * (i * shape.k) <= sum <= 16384 * (i * shape.k));
    assert(-16384 * j <= tail <= 16384 * j);
    assert(-16384 * taps <= sum + tail <= 16384 * taps);
}

/// The sum over `n` channels is within 16384 per tap of zero.
proof fn channel_sum_range(
    shape: ConvShape,
    weight: Seq<i8>,
    input: Seq<i8>,
    o: int,
    t: int,
    n: int,
)
    requires
        0 <= n <= shape.c_in,
        shape.c_in * shape.k < 0x2_0000,
    ensures
        -16384 * (n * shape.k) <= channel_sum(shape, weight, input, o, t, n) <= 16384 * (n
            * shape.k),
    decreases n,
{
    if n > 0 {
        channel_sum_range(shape, weight, input, o, t, n - 1);
        assert((n - 1) * shape.k + shape.k == n * shape.k && n * shape.k <= shape.c_in * shape.k
            && 0 <= (n - 1) * shape.k) by (nonlinear_arith)
            requires
                1 <= n <= shape.c_in,
                shape.k >= 0,
        ;
        short_dots_fit(
            weight,
            input,
            shape.kernel_at(o, n - 1),
            shape.input_at(n - 1, t),
            shape.k as int,
        );
    } else {
        assert(n * shape.k == 0) by (nonlinear_arith)
            requires
                n == 0,
        ;
    }
}

/// The kernel and the input window of output channel `o`, input channel `i`, position `t`
/// lie within their buffers.
proof fn conv_windows(shape: ConvShape, weight_len: nat, input_len: nat, o: int, i: int, t: int)
    requires
        1 <= shape.k <= shape.l_in,
        shape.stride >= 1,
        input_len == shape.c_in * shape.l_in,
        weight_len == shape.c_out * shape.c_in * shape.k,
        0 <= o < shape.c_out,
        0 <= i < shape.c_in,
        0 <= t < shape.l_out(),
    ensures
        0 <= o * shape.c_in + i,
        o * shape.c_in + i <= shape.kernel_at(o, i),
        0 <= shape.kernel_at(o, i),
        shape.kernel_at(o, i) + shape.k <= weight_len,
        0 <= i * shape.l_in <= shape.input_at(i, t),
        0 <= t * shape.stride,
        t * shape.stride + shape.k <= shape.l_in,
        shape.input_at(i, t) + shape.k <= input_len,
{
    let (c_in, c_out, l_in, k, stride) = (
        shape.c_in as int,
        shape.c_out as int,
        shape.l_in as int,
        shape.k as int,
        shape.stride as int,
    );
    assert(0 <= o * c_in + i && o * c_in + i + 1 <= c_out * c_in) by (nonlinear_arith)
        requires
            0 <= o < c_out,
            0 <= i < c_in,
    ;
    let a = o * c_in + i;
    let n = c_out * c_in;
    assert(0 <= a * k && a <= a * k && a * k + k <= n * k) by (nonlinear_arith)
        requires
            0 <= a,
            a + 1 <= n,
            k >= 1,
    ;
    assert(0 <= i * l_in && i * l_in + l_in <= c_in * l_in) by (nonlinear_arith)
        requires
            0 <= i < c_in,
            l_in >= 1,
    ;
    let room = l_in - k;
    assert(0 <= t * stride <= room) by (nonlinear_arith)
        requires
            0 <= t <= room / stride,
            room >= 0,
            stride >= 1,
    ;
}

/// One output of a convolution before rescaling.
fn conv_at(shape: &ConvShape, weight: &[i8], input: &[i8], bias: i32, o: usize, t: usize) -> (r: i32)
    requires
        1 <= shape.k <= shape.l_in,
        shape.stride >= 1,
        input@.len() == shape.c_in * shape.l_in,
        weight@.len() == shape.c_out * shape.c_in * shape.k,
        o < shape.c_out,
        t < shape.l_out(),
        forall|i: int, j: int|
            0 <= i < shape.c_in && 0 <= j <= shape.k ==> fits(
                #[trigger] partial_sum(
                    *shape,
                    weight@,
                    input@,
                    bias as int,
                    o as int,
                    t as int,
                    i,
                    j,
                ),
            ),
    ensures
        r == conv_sum(*shape, weight@, input@, bias as int, o as int, t as int),
{
    let mut acc: i32 = bias;
    let mut i: usize = 0;
    proof {
        assert(weight.len() == weight@.len() && input.len() == input@.len());
    }
    while i < shape.c_in
        invariant
            i <= shape.c_in,
            1 <= shape.k <= shape.l_in,
            shape.stride >= 1,
            input@.len() == shape.c_in * shape.l_in,
            weight@.len() == shape.c_out * shape.c_in * shape.k,
            input@.len() <= usize::MAX,
            weight@.len() <= usize::MAX,
            o < shape.c_out,
            t < shape.l_out(),
            forall|i: int, j: int|
                0 <= i < shape.c_in && 0 <= j <= shape.k ==> fits(
                    #[trigger] partial_sum(
                        *shape,
                        weight@,
                        input@,
                        bias as int,
                        o as int,
                        t as int,
                        i,
                        j,
                    ),
                ),
            acc == bias + channel_sum(*shape, weight@, input@, o as int, t as int, i as int),
        decreases shape.c_in - i,
    {
        proof {
            conv_windows(*shape, weight@.len(), input@.len(), o as int, i as int, t as int);
            assert(0 <= o * shape.c_in) by (nonlinear_arith);
        }
        let kernel: usize = (o * shape.c_in + i) * shape.k;
        let window: usize = i * shape.l_in + t * shape.stride;
        let mut j: usize = 0;
        while j < shape.k
            invariant
                j <= shape.k,
                i < shape.c_in,
                kernel == shape.kernel_at(o as int, i as int),
                window == shape.input_at(i as int, t as int),
                kernel + shape.k <= weight@.len(),
                window + shape.k <= input@.len(),
                weight@.len() <= usize::MAX,
                input@.len() <= usize::MAX,
                forall|i: int, j: int|
                    0 <= i < shape.c_in && 0 <= j <= shape.k ==> fits(
                        #[trigger] partial_sum(
                            *shape,
                            weight@,
                            input@,
                            bias as int,
                            o as int,
                            t as int,
                            i,
                            j,
                        ),
                    ),
                acc == partial_sum(
                    *shape,
                    weight@,
                    input@,
                    bias as int,
                    o as int,
                    t as int,
                    i as int,
                    j as int,
                ),
            decreases shape.k - j,
        {
            proof {
                byte_product(weight@[kernel + j], input@[window + j]);
                assert(fits(
                    partial_sum(
                        *shape,
                        weight@,
                        input@,
                        bias as int,
                        o as int,
                        t as int,
                        i as int,
                        j + 1,
                    ),
                ));
            }
            acc = acc + weight[kernel + j] as i32 * input[window + j] as i32;
            j = j + 1;
        }
        i = i + 1;
    }
    acc
}

/// Integer-only 1-D convolution.
///
/// Each output is the `i32` sum of the bias and all products, rescaled to int8 by the
/// output channel's multiplier, and cut off to `[out_min, out_max]` (a lower end of zero
/// fuses a following rectifier).
pub fn conv1d_i8(
    out: &mut [i8],
    input: &[i8],
    weight: &[i8],
    bias: &[i32],
    mult: &[i32],
    shift: &[i32],
    out_min: i8,
    out_max: i8,
    c_in: usize,
    c_out: usize,
    l_in: usize,
    k: usize,
    stride: usize,
)
    requires
        conv_ready(
            (ConvShape { c_in, c_out, l_in, k, stride }),
            old(out)@.len(),
            input@,
            weight@,
            bias@,
            mult@,
            shift@,
        ),
        out_min <= out_max,
    ensures
        final(out)@.len() == old(out)@.len(),
        ({
            let shape = ConvShape { c_in, c_out, l_in, k, stride };
            forall|o: int, t: int|
                0 <= o < c_out && 0 <= t < shape.l_out() ==> #[trigger] final(out)@[o
                    * shape.l_out() + t] == clamped(
                    requantized(
                        conv_sum(shape, weight@, input@, bias@[o] as int, o, t) as i32,
                        mult@[o],
                        shift@[o],
                    ),
                    out_min,
                    out_max,
                )
        }),
{
    let shape = ConvShape { c_in, c_out, l_in, k, stride };
    let ghost lo = shape.l_out() as int;
    proof {
        assert(out.len() == out@.len());
        if shape.c_out > 0 {
            assert(lo <= shape.c_out * lo) by (nonlinear_arith)
                requires
                    shape.c_out >= 1,
                    lo >= 0,
            ;
        }
    }
    let mut o: usize = 0;
    while o < shape.c_out
        invariant
            o <= shape.c_out,
            lo == shape.l_out(),
            lo <= usize::MAX || shape.c_out == 0,
            out@.len() == old(out)@.len(),
            out@.len() <= usize::MAX,
            conv_ready(shape, out@.len(), input@, weight@, bias@, mult@, shift@),
            out_min <= out_max,
            forall|p: int, t: int|
                0 <= p < o && 0 <= t < lo ==> #[trigger] out@[p * lo + t] == clamped(
                    requantized(
                        conv_sum(shape, weight@, input@, bias@[p] as int, p, t) as i32,
                        mult@[p],
                        shift@[p],
                    ),
                    out_min,
                    out_max,
                ),
        decreases shape.c_out - o,
    {
        let l_out: usize = conv1d_out_len(shape.l_in, shape.k, shape.stride);
        proof {
            assert(0 <= o * lo && o * lo + lo <= shape.c_out * lo) by (nonlinear_arith)
                requires
                    0 <= o < shape.c_out,
                    lo >= 0,
            ;
        }
        let row: usize = o * l_out;
        let mut t: usize = 0;
        while t < l_out
            invariant
                t <= l_out,
                o < shape.c_out,
                lo == shape.l_out(),
                l_out == lo,
                row == o * lo,
                row + lo <= out@.len(),
                out@.len() == old(out)@.len(),
                out@.len() <= usize::MAX,
                conv_ready(shape, out@.len(), input@, weight@, bias@, mult@, shift@),
                out_min <= out_max,
                forall|p: int, t: int|
                    0 <= p < o && 0 <= t < lo ==> #[trigger] out@[p * lo + t] == clamped(
                        requantized(
                            conv_sum(shape, weight@, input@, bias@[p] as int, p, t) as i32,
                            mult@[p],
                            shift@[p],
                        ),
                        out_min,
                        out_max,
                    ),
                forall|s: int|
                    0 <= s < t ==> #[trigger] out@[row + s] == clamped(
                        requantized(
                            conv_sum(
                                shape,
                                weight@,
                                input@,
                                bias@[o as int] as int,
                                o as int,
                                s,
                            ) as i32,
                            mult@[o as int],
                            shift@[o as int],
                        ),
                        out_min,
                        out_max,
                    ),
            decreases l_out - t,
        {
            let acc: i32 = conv_at(&shape, weight, input, bias[o], o, t);
            let q: i32 = requantize(acc, mult[o], shift[o]);
            let ghost before = out@;
            out[row + t] = clamp_i8(q, out_min, out_max);
            proof {
                assert forall|p: int, s: int| 0 <= p < o && 0 <= s < lo implies
                    #[trigger] out@[p * lo + s] == before[p * lo + s] by {
                    assert(0 <= p * lo + s < o * lo) by (nonlinear_arith)
                        requires
                            0 <= p < o,
                            0 <= s < lo,
                    ;
                }
            }
            t = t + 1;
        }
        proof {
            assert forall|p: int, s: int| 0 <= p < o + 1 && 0 <= s < lo implies
                #[trigger] out@[p * lo + s] == clamped(
                requantized(
                    conv_sum(shape, weight@, input@, bias@[p] as int, p, s) as i32,
                    mult@[p],
                    shift@[p],
                ),
                out_min,
                out_max,
            ) by {
                if p == o {
                    assert(out@[row + s] == clamped(
                        requantized(
                            conv_sum(
                                shape,
                                weight@,
                                input@,
                                bias@[o as int] as int,
                                o as int,
                                s,
                            ) as i32,
                            mult@[o as int],
                            shift@[o as int],
                        ),
                        out_min,
                        out_max,
                    ));
                }
            }
        }
        o = o + 1;
    }
}

/// `x[at] + ... + x[at + n - 1]`.
pub open spec fn window_sum(x: Seq<i8>, at: int, n: int) -> int
    decreases n,
{
    if n <= 0 {
        0
    } else {
        window_sum(x, at, n - 1) + x[at + n - 1]
    }
}

/// Integer-only global average pooling: each channel's sum, rescaled (the division by the
/// length is part of the multiplier) and cut off to `[out_min, out_max]`.
pub fn global_avg_pool_i8(
    out: &mut [i8],
    input: &[i8],
    c: usize,
    l: usize,
    mult: i32,
    shift: i32,
    out_min: i8,
    out_max: i8,
)
    requires
        old(out)@.len() == c,
        input@.len() == c * l,
        l >= 1,
        shift >= -30,
        out_min <= out_max,
        forall|ch: int, n: int|
            0 <= ch < c && 0 <= n <= l ==> fits(#[trigger] window_sum(input@, ch * l, n)),
    ensures
        final(out)@.len() == c,
        forall|ch: int|
            0 <= ch < c ==> #[trigger] final(out)@[ch] == clamped(
                requantized(window_sum(input@, ch * l, l as int) as i32, mult, shift),
                out_min,
                out_max,
            ),
{
    let mut ch: usize = 0;
    proof {
        assert(input.len() == input@.len());
    }
    while ch < c
        invariant
            ch <= c,
            out@.len() == c,
            input@.len() == c * l,
            input@.len() <= usize::MAX,
            l >= 1,
            shift >= -30,
            out_min <= out_max,
            forall|ch: int, n: int|
                0 <= ch < c && 0 <= n <= l ==> fits(#[trigger] window_sum(input@, ch * l, n)),
            forall|h: int|
                0 <= h < ch ==> #[trigger] out@[h] == clamped(
                    requantized(window_sum(input@, h * l, l as int) as i32, mult, shift),
                    out_min,
                    out_max,
                ),
        decreases c - ch,
    {
        proof {
            assert(0 <= ch * l && ch * l + l <= c * l) by (nonlinear_arith)
                requires
                    0 <= ch < c,
                    l >= 1,
            ;
        }
        let row: usize = ch * l;
        let mut acc: i32 = 0;
        let mut j: usize = 0;
        while j < l
            invariant
                j <= l,
                ch < c,
                row == ch * l,
                row + l <= input@.len(),
                input@.len() <= usize::MAX,
                forall|ch: int, n: int|
                    0 <= ch < c && 0 <= n <= l ==> fits(#[trigger] window_sum(input@, ch * l, n)),
                acc == window_sum(input@, row as int, j as int),
            decreases l - j,
        {
            proof {
                assert(fits(window_sum(input@, ch * l, j + 1)));
            }
            acc = acc + input[row + j] as i32;
            j = j + 1;
        }
        let q: i32 = requantize(acc, mult, shift);
        out[ch] = clamp_i8(q, out_min, out_max);
        ch = ch + 1;
    }
}

/// Integer-only matrix-vector product into `i32` accumulators: row `o` of the row-major
/// `[d_out, d_in]` weight times the input.
pub fn matmul_i8(out: &mut [i32], input: &[i8], weight: &[i8], d_in: usize, d_out: usize)
    requires
        old(out)@.len() == d_out,
        input@.len() == d_in,
        weight@.len() == d_in * d_out,
        forall|o: int, n: int|
            0 <= o < d_out && 0 <= n <= d_in ==> fits(
                #[trigger] dot(weight@, input@, o * d_in, 0, n),
            ),
    ensures
        final(out)@.len() == d_out,
        forall|o: int|
            0 <= o < d_out ==> #[trigger] final(out)@[o] == dot(
                weight@,
                input@,
                o * d_in,
                0,
                d_in as int,
            ),
{
    let mut o: usize = 0;
    proof {
        assert(weight.len() == weight@.len());
    }
    while o < d_out
        invariant
            o <= d_out,
            out@.len() == d_out,
            input@.len() == d_in,
            weight@.len() == d_in * d_out,
            weight@.len() <= usize::MAX,
            forall|o: int, n: int|
                0 <= o < d_out && 0 <= n <= d_in ==> fits(
                    #[trigger] dot(weight@, input@, o * d_in, 0, n),
                ),
            forall|p: int|
                0 <= p < o ==> #[trigger] out@[p] == dot(
                    weight@,
                    input@,
                    p * d_in,
                    0,
                    d_in as int,
                ),
        decreases d_out - o,
    {
        proof {
            assert(0 <= o * d_in && o * d_in + d_in <= d_in * d_out) by (nonlinear_arith)
                requires
                    0 <= o < d_out,
                    d_in >= 0,
            ;
        }
        let row: usize = o * d_in;
        let mut acc: i32 = 0;
        let mut j: usize = 0;
        while j < d_in
            invariant
                j <= d_in,
                o < d_out,
                row == o * d_in,
                row + d_in <= weight@.len(),
                weight@.len() <= usize::MAX,
                input@.len() == d_in,
                forall|o: int, n: int|
                    0 <= o < d_out && 0 <= n <= d_in ==> fits(
                        #[trigger] dot(weight@, input@, o * d_in, 0, n),
                    ),
                acc == dot(weight@, input@, row as int, 0, j as int),
            decreases d_in - j,
        {
            proof {
                byte_product(weight@[row + j], input@[j as int]);
                assert(fits(dot(weight@, input@, o * d_in, 0, j + 1)));
            }
            acc = acc + weight[row + j] as i32 * input[j] as i32;
            j = j + 1;
        }
        out[o] = acc;
        o = o + 1;
    }
}

/// The bias, then all taps of the first `n` channels, in order.
pub open spec fn conv_value<A: Fn(Scalar) -> u32>(
    a: A,
    shape: ConvShape,
    weight: Seq<u32>,
    input: Seq<u32>,
    bias: u32,
    o: int,
    t: int,
    n: int,
) -> u32
    decreases n,
{
    if n <= 0 {
        bias
    } else {
        tail_sum(
            a,
            conv_value(a, shape, weight, input, bias, o, t, n - 1),
            weight,
            shape.kernel_at(o, n - 1),
            input,
            shape.input_at(n - 1, t),
            0,
            shape.k as int,
        )
    }
}

/// One output of a convolution in full precision.
fn conv_value_at<A: Fn(Scalar) -> u32>(
    shape: &ConvShape,
    weight: &[u32],
    input: &[u32],
    bias: u32,
    o: usize,
    t: usize,
    a: &A,
) -> (r: u32)
    requires
        is_arithmetic(*a),
        1 <= shape.k <= shape.l_in,
        shape.stride >= 1,
        input@.len() == shape.c_in * shape.l_in,
        weight@.len() == shape.c_out * shape.c_in * shape.k,
        o < shape.c_out,
        t < shape.l_out(),
    ensures
        r == conv_value(
            *a,
            *shape,
            weight@,
            input@,
            bias,
            o as int,
            t as int,
            shape.c_in as int,
        ),
{
    proof {
        assert(weight.len() == weight@.len() && input.len() == input@.len());
    }
    let mut sum: u32 = bias;
    let mut i: usize = 0;
    while i < shape.c_in
        invariant
            i <= shape.c_in,
            is_arithmetic(*a),
            1 <= shape.k <= shape.l_in,
            shape.stride >= 1,
            input@.len() == shape.c_in * shape.l_in,
            weight@.len() == shape.c_out * shape.c_in * shape.k,
            input@.len() <= usize::MAX,
            weight@.len() <= usize::MAX,
            o < shape.c_out,
            t < shape.l_out(),
            sum == conv_value(
                *a,
                *shape,
                weight@,
                input@,
                bias,
                o as int,
                t as int,
                i as int,
            ),
        decreases shape.c_in - i,
    {
        proof {
            conv_windows(*shape, weight@.len(), input@.len(), o as int, i as int, t as int);
            assert(0 <= o * shape.c_in) by (nonlinear_arith);
        }
        let kernel: usize = (o * shape.c_in + i) * shape.k;
        let window: usize = i * shape.l_in + t * shape.stride;
        let ghost start = sum;
        let mut j: usize = 0;
        while j < shape.k
            invariant
                j <= shape.k,
                is_arithmetic(*a),
                kernel + shape.k <= weight@.len(),
                window + shape.k <= input@.len(),
                input@.len() <= usize::MAX,
                weight@.len() <= usize::MAX,
                sum == tail_sum(
                    *a,
                    start,
                    weight@,
                    kernel as int,
                    input@,
                    window as int,
                    0,
                    j as int,
                ),
            decreases shape.k - j,
        {
            let p: u32 = eval(a, Scalar::Mul(weight[kernel + j], input[window + j]));
            sum = eval(a, Scalar::Add(sum, p));
            j = j + 1;
        }
        i = i + 1;
    }
    sum
}

/// The bias of an output channel; zero where there is none.
pub open spec fn bias_of(bias: Option<&[u32]>, o: int) -> u32 {
    match bias {
        Some(b) => b@[o],
        None => ZERO,
    }
}

/// Convolve `[c_in, l_in]` with `[c_out, c_in, k]` in full precision: every output is the
/// channel's bias plus every kernel tap times the input under it, in order.
pub fn conv1d<A: Fn(Scalar) -> u32>(
    out: &mut [u32],
    input: &[u32],
    weight: &[u32],
    bias: Option<&[u32]>,
    c_in: usize,
    c_out: usize,
    l_in: usize,
    k: usize,
    stride: usize,
    a: &A,
)
    requires
        is_arithmetic(*a),
        1 <= k <= l_in,
        stride >= 1,
        old(out)@.len() == c_out * out_len(l_in as nat, k as nat, stride as nat),
        input@.len() == c_in * l_in,
        weight@.len() == c_out * c_in * k,
        bias matches Some(b) ==> b@.len() == c_out,
    ensures
        ({
            let shape = ConvShape { c_in, c_out, l_in, k, stride };
            let l_out = shape.l_out() as int;
            &&& final(out)@.len() == old(out)@.len()
            &&& forall|o: int, t: int|
                0 <= o < c_out && 0 <= t < l_out ==> #[trigger] final(out)@[o * l_out + t]
                    == conv_value(
                    *a,
                    shape,
                    weight@,
                    input@,
                    bias_of(bias, o),
                    o,
                    t,
                    c_in as int,
                )
        }),
{
    let shape = ConvShape { c_in, c_out, l_in, k, stride };
    if c_out == 0 {
        return ;
    }
    proof {
        assert(shape.l_out() <= c_out * shape.l_out()) by (nonlinear_arith)
            requires
                c_out >= 1,
                shape.l_out() >= 0,
        ;
        assert(out.len() == out@.len());
        assert(0 * shape.l_out() == 0) by (nonlinear_arith);
    }
    let l_out: usize = conv1d_out_len(l_in, k, stride);
    let mut o: usize = 0;
    while o < c_out
        invariant
            o <= c_out,
            is_arithmetic(*a),
            shape == (ConvShape { c_in, c_out, l_in, k, stride }),
            1 <= k <= l_in,
            stride >= 1,
            l_out == shape.l_out(),
            out@.len() == c_out * l_out,
            out@.len() <= usize::MAX,
            input@.len() == c_in * l_in,
            weight@.len() == c_out * c_in * k,
            bias matches Some(b) ==> b@.len() == c_out,
            forall|p: int, t: int|
                0 <= p < o && 0 <= t < l_out ==> #[trigger] out@[p * l_out + t] == conv_value(
                    *a,
                    shape,
                    weight@,
                    input@,
                    bias_of(bias, p),
                    p,
                    t,
                    c_in as int,
                ),
        decreases c_out - o,
    {
        let start: u32 = match bias {
            Some(b) => b[o],
            None => ZERO,
        };
        proof {
            assert(0 <= o * l_out && o * l_out + l_out <= c_out * l_out) by (nonlinear_arith)
                requires
                    0 <= o < c_out,
                    l_out >= 0,
            ;
        }
        let row: usize = o * l_out;
        let mut t: usize = 0;
        while t < l_out
            invariant
                t <= l_out,
                o < c_out,
                row == o * l_out,
                row + l_out <= out@.len(),
                start == bias_of(bias, o as int),
                is_arithmetic(*a),
                shape == (ConvShape { c_in, c_out, l_in, k, stride }),
                1 <= k <= l_in,
                stride >= 1,
                l_out == shape.l_out(),
                out@.len() == c_out * l_out,
                out@.len() <= usize::MAX,
                input@.len() == c_in * l_in,
                weight@.len() == c_out * c_in * k,
                forall|p: int, s: int|
                    0 <= p < o && 0 <= s < l_out ==> #[trigger] out@[p * l_out + s]
                        == conv_value(
                        *a,
                        shape,
                        weight@,
                        input@,
                        bias_of(bias, p),
                        p,
                        s,
                        c_in as int,
                    ),
                forall|s: int|
                    0 <= s < t ==> #[trigger] out@[o * l_out + s] == conv_value(
                        *a,
                        shape,
                        weight@,
                        input@,
                        bias_of(bias, o as int),
                        o as int,
                        s,
                        c_in as int,
                    ),
            decreases l_out - t,
        {
            let value: u32 = conv_value_at(&shape, weight, input, start, o, t, a);
            let ghost before = out@;
            out[row + t] = value;
            proof {
                assert forall|p: int, s: int| 0 <= p < o && 0 <= s < l_out implies
                    #[trigger] out@[p * l_out + s] == conv_value(
                    *a,
                    shape,
                    weight@,
                    input@,
                    bias_of(bias, p),
                    p,
                    s,
                    c_in as int,
                ) by {
                    assert(0 <= p * l_out + s < o * l_out) by (nonlinear_arith)
                        requires
                            0 <= p < o,
                            0 <= s < l_out,
                    ;
                    assert(before[p * l_out + s] == out@[p * l_out + s]);
                }
            }
            t = t + 1;
        }
        proof {
            assert forall|p: int, s: int| 0 <= p < o + 1 && 0 <= s < l_out implies
                #[trigger] out@[p * l_out + s] == conv_value(
                *a,
                shape,
                weight@,
                input@,
                bias_of(bias, p),
                p,
                s,
                c_in as int,
            ) by {
                if p == o {
                    assert(out@[o * l_out + s] == conv_value(
                        *a,
                        shape,
                        weight@,
                        input@,
                        bias_of(bias, o as int),
                        o as int,
                        s,
                        c_in as int,
                    ));
                }
            }
        }
        o = o + 1;
    }
}

/// The mean of each of `c` channels of length `l`.
pub open spec fn pooled<A: Fn(Scalar) -> u32>(a: A, input: Seq<u32>, c: nat, l: usize) -> Seq<u32> {
    Seq::new(
        c,
        |ch: int|
            times(
                a,
                total_of(a, input.subrange(ch * l, ch * l + l), l as int),
                over(a, ONE, value(a, Scalar::Count(l))),
            ),
    )
}

/// Global average pooling in full precision: the mean of each channel, as the sum times one
/// over the length.
pub fn global_avg_pool<A: Fn(Scalar) -> u32>(
    out: &mut [u32],
    input: &[u32],
    c: usize,
    l: usize,
    a: &A,
)
    requires
        is_arithmetic(*a),
        l >= 1,
        old(out)@.len() == c,
        input@.len() == c * l,
    ensures
        final(out)@ == pooled(*a, input@, c as nat, l),
{
    let ghost all = pooled(*a, input@, c as nat, l);
    proof {
        assert(input.len() == input@.len());
    }
    let count: u32 = eval(a, Scalar::Count(l));
    let inv: u32 = eval(a, Scalar::Div(ONE, count));
    let mut ch: usize = 0;
    while ch < c
        invariant
            ch <= c,
            is_arithmetic(*a),
            l >= 1,
            out@.len() == c,
            input@.len() == c * l,
            input@.len() <= usize::MAX,
            inv == over(*a, ONE, value(*a, Scalar::Count(l))),
            all.len() == c,
            forall|k: int|
                0 <= k < c ==> #[trigger] all[k] == times(
                    *a,
                    total_of(*a, input@.subrange(k * l, k * l + l), l as int),
                    inv,
                ),
            forall|k: int| 0 <= k < ch ==> #[trigger] out@[k] == all[k],
        decreases c - ch,
    {
        proof {
            assert(0 <= ch * l && ch * l + l <= c * l) by (nonlinear_arith)
                requires
                    0 <= ch < c,
                    l >= 1,
            ;
        }
        let row = vstd::slice::slice_subrange(input, ch * l, ch * l + l);
        let sum: u32 = total_all(row, a);
        out[ch] = eval(a, Scalar::Mul(sum, inv));
        ch = ch + 1;
    }
    proof {
        assert(out@ =~= all);
    }
}

} // verus!
