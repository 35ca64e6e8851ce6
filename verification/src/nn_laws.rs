//! What convolutions and pooling compute: which taps meet which inputs, how many outputs there
//! are, and what is added up.

use vstd::prelude::*;

use crate::dsp::magnitude_of;
use crate::kernel_laws::{products, sums_add_up, whole_run};
use crate::kernels::total_of;
use crate::math::{dot, sum};
use crate::nn::{
    bias_of, channel_sum, clamped, conv_sum, conv_value, out_len, pooled, window_sum, ConvShape,
};
use crate::scalar::{value, Scalar, ONE};
use crate::whole::{
    bounded, equal_sums, exact, int_sum, is_whole, num, size, size_sum, small,
    sum_within,
};

verus! {

/// A convolution has as many outputs as windows fit: the last one fits, and one more would not.
pub proof fn outputs_are_the_windows_that_fit(l_in: nat, k: nat, stride: nat)
    requires
        1 <= k <= l_in,
        stride >= 1,
    ensures
        out_len(l_in, k, stride) >= 1,
        (out_len(l_in, k, stride) - 1) * stride + k <= l_in,
        out_len(l_in, k, stride) * stride + k > l_in,
{
    let room = l_in - k;
    let n = room / (stride as int);
    vstd::arithmetic::div_mod::lemma_fundamental_div_mod(room, stride as int);
    assert(n >= 0) by {
        vstd::arithmetic::div_mod::lemma_div_pos_is_pos(room, stride as int);
    }
    assert(n * stride <= room < (n + 1) * stride) by (nonlinear_arith)
        requires
            room == stride * n + room % (stride as int),
            0 <= room % (stride as int) < stride,
    ;
}

/// A product of bytes is the sum of the products.
pub proof fn dots_add_up(w: Seq<i8>, x: Seq<i8>, wo: int, xo: int, n: int)
    ensures
        dot(w, x, wo, xo, n) == int_sum(|k: int| w[wo + k] * x[xo + k], n),
    decreases n,
{
    if n > 0 {
        dots_add_up(w, x, wo, xo, n - 1);
        let f = |k: int| w[wo + k] * x[xo + k];
        assert(f(n - 1) == w[wo + (n - 1)] * x[xo + (n - 1)]);
        assert(wo + n - 1 == wo + (n - 1) && xo + n - 1 == xo + (n - 1));
    }
}

/// A sum of bytes is the sum.
pub proof fn byte_sums_add_up(x: Seq<i8>, at: int, n: int)
    ensures
        sum(x, n) == int_sum(|k: int| x[k] as int, n),
        window_sum(x, at, n) == int_sum(|k: int| x[at + k] as int, n),
    decreases n,
{
    if n > 0 {
        byte_sums_add_up(x, at, n - 1);
        let f = |k: int| x[at + k] as int;
        assert(f(n - 1) == x[at + (n - 1)]);
    }
}

/// What channel `i` adds to output `t` of channel `o`: every tap of the kernel times the input under
/// it, the window starting `t` strides in.
pub open spec fn channel_term(
    shape: ConvShape,
    weight: Seq<i8>,
    input: Seq<i8>,
    o: int,
    t: int,
) -> spec_fn(int) -> int {
    |i: int|
        int_sum(
            |j: int|
                weight[(o * shape.c_in + i) * shape.k + j] * input[i * shape.l_in + t
                    * shape.stride + j],
            shape.k as int,
        )
}

proof fn channels_add_up(
    shape: ConvShape,
    weight: Seq<i8>,
    input: Seq<i8>,
    o: int,
    t: int,
    n: int,
)
    ensures
        channel_sum(shape, weight, input, o, t, n) == int_sum(
            channel_term(shape, weight, input, o, t),
            n,
        ),
    decreases n,
{
    if n > 0 {
        channels_add_up(shape, weight, input, o, t, n - 1);
        let i = n - 1;
        let (wo, xo) = ((o * shape.c_in + i) * shape.k, i * shape.l_in + t * shape.stride);
        dots_add_up(weight, input, wo, xo, shape.k as int);
        let f = |k: int| weight[wo + k] * input[xo + k];
        let g = |j: int|
            weight[(o * shape.c_in + i) * shape.k + j] * input[i * shape.l_in + t * shape.stride
                + j];
        assert(f =~= g);
    }
}

/// An output of a convolution, before rescaling, is the bias and what all channels add.
pub proof fn a_convolution_adds_all_taps(
    shape: ConvShape,
    weight: Seq<i8>,
    input: Seq<i8>,
    bias: int,
    o: int,
    t: int,
)
    ensures
        conv_sum(shape, weight, input, bias, o, t) == bias + int_sum(
            channel_term(shape, weight, input, o, t),
            shape.c_in as int,
        ),
{
    channels_add_up(shape, weight, input, o, t, shape.c_in as int);
}

/// A value is cut off to a range: it stays where it is within it, and goes to the nearer end
/// otherwise.
pub proof fn values_are_cut_off(v: int, low: i8, high: i8)
    requires
        low <= high,
    ensures
        low <= clamped(v, low, high) <= high,
        low <= v <= high ==> clamped(v, low, high) == v,
        v < low ==> clamped(v, low, high) == low,
        v > high ==> clamped(v, low, high) == high,
{
}

/// What channel `i` adds to output `t` of channel `o`, in full precision.
pub open spec fn channel_products(
    r: spec_fn(u32) -> Option<int>,
    shape: ConvShape,
    weight: Seq<u32>,
    input: Seq<u32>,
    o: int,
    t: int,
    i: int,
) -> spec_fn(int) -> int {
    |j: int|
        num(r, weight[(o * shape.c_in + i) * shape.k + j]) * num(
            r,
            input[i * shape.l_in + t * shape.stride + j],
        )
}

/// Whether the taps and the inputs under them stand for whole numbers.
pub open spec fn channel_is_whole(
    r: spec_fn(u32) -> Option<int>,
    shape: ConvShape,
    weight: Seq<u32>,
    input: Seq<u32>,
    o: int,
    t: int,
    i: int,
) -> bool {
    &&& whole_run(r, weight, (o * shape.c_in + i) * shape.k, shape.k as int)
    &&& whole_run(r, input, i * shape.l_in + t * shape.stride, shape.k as int)
}

/// A running sum goes on by the products that follow, from any start.
proof fn taps_add_up<A: Fn(Scalar) -> u32>(
    a: A,
    r: spec_fn(u32) -> Option<int>,
    start: u32,
    x: Seq<u32>,
    xo: int,
    y: Seq<u32>,
    yo: int,
    n: int,
)
    requires
        exact(a, r),
        0 <= n,
        whole_run(r, x, xo, n),
        whole_run(r, y, yo, n),
        is_whole(r, start),
        size(num(r, start)) + size_sum(products(r, x, xo, y, yo), n) <= 0x100_0000,
    ensures
        r(crate::kernels::tail_sum(a, start, x, xo, y, yo, 0, n)) == Some(
            num(r, start) + int_sum(products(r, x, xo, y, yo), n),
        ),
    decreases n,
{
    let f = products(r, x, xo, y, yo);
    sum_within(f, n);
    if n > 0 {
        sum_within(f, n - 1);
        taps_add_up(a, r, start, x, xo, y, yo, n - 1);
        assert(is_whole(r, x[xo + n - 1]) && is_whole(r, y[yo + n - 1]));
        assert(f(n - 1) == num(r, x[xo + n - 1]) * num(r, y[yo + n - 1]));
    }
}

/// What all channels up to `n` add.
pub open spec fn channels_sum(
    r: spec_fn(u32) -> Option<int>,
    shape: ConvShape,
    weight: Seq<u32>,
    input: Seq<u32>,
    o: int,
    t: int,
) -> spec_fn(int) -> int {
    |i: int| int_sum(channel_products(r, shape, weight, input, o, t, i), shape.k as int)
}

/// The magnitudes of what all channels up to `n` add.
pub open spec fn channels_size(
    r: spec_fn(u32) -> Option<int>,
    shape: ConvShape,
    weight: Seq<u32>,
    input: Seq<u32>,
    o: int,
    t: int,
) -> spec_fn(int) -> int {
    |i: int| size_sum(channel_products(r, shape, weight, input, o, t, i), shape.k as int)
}

/// On whole numbers an output of a convolution in full precision is the bias and every tap of every
/// channel times the input under it.
pub proof fn a_full_convolution_adds_all_taps<A: Fn(Scalar) -> u32>(
    a: A,
    r: spec_fn(u32) -> Option<int>,
    shape: ConvShape,
    weight: Seq<u32>,
    input: Seq<u32>,
    bias: u32,
    o: int,
    t: int,
    n: int,
)
    requires
        exact(a, r),
        0 <= n,
        is_whole(r, bias),
        forall|i: int|
            0 <= i < n ==> #[trigger] channel_is_whole(r, shape, weight, input, o, t, i),
        size(num(r, bias)) + int_sum(channels_size(r, shape, weight, input, o, t), n)
            <= 0x100_0000,
    ensures
        r(conv_value(a, shape, weight, input, bias, o, t, n)) == Some(
            num(r, bias) + int_sum(channels_sum(r, shape, weight, input, o, t), n),
        ),
        size(num(r, conv_value(a, shape, weight, input, bias, o, t, n))) <= size(num(r, bias))
            + int_sum(channels_size(r, shape, weight, input, o, t), n),
    decreases n,
{
    let (s, z) = (
        channels_sum(r, shape, weight, input, o, t),
        channels_size(r, shape, weight, input, o, t),
    );
    if n > 0 {
        let i = n - 1;
        let p = channel_products(r, shape, weight, input, o, t, i);
        let (wo, xo) = ((o * shape.c_in + i) * shape.k, i * shape.l_in + t * shape.stride);
        let q = products(r, weight, wo, input, xo);
        assert(p =~= q);
        assert(channel_is_whole(r, shape, weight, input, o, t, i));
        sum_within(p, shape.k as int);
        assert(z(i) == size_sum(p, shape.k as int) && s(i) == int_sum(p, shape.k as int));
        a_full_convolution_adds_all_taps(a, r, shape, weight, input, bias, o, t, n - 1);
        let before = conv_value(a, shape, weight, input, bias, o, t, n - 1);
        taps_add_up(a, r, before, weight, wo, input, xo, shape.k as int);
    }
}

/// Pooling gives the sum of a channel, times one over its length: on whole numbers the sum is that
/// of the channel's own elements.
pub proof fn pooling_averages_a_channel<A: Fn(Scalar) -> u32>(
    a: A,
    r: spec_fn(u32) -> Option<int>,
    input: Seq<u32>,
    c: nat,
    l: usize,
    ch: int,
)
    requires
        exact(a, r),
        0 <= ch < c,
        input.len() == c * l,
        whole_run(r, input, ch * l, l as int),
        bounded(|k: int| num(r, input[ch * l + k]), l as int),
    ensures
        pooled(a, input, c, l).len() == c,
        exists|total: u32|
            r(total) == Some(int_sum(|k: int| num(r, input[ch * l + k]), l as int))
                && pooled(a, input, c, l)[ch] == #[trigger] value(
                a,
                Scalar::Mul(
                    total,
                    value(a, Scalar::Div(ONE, value(a, Scalar::Count(l)))),
                ),
            ),
{
    crate::layout::window_bounds(c, ch, l as nat);
    let x = input.subrange(ch * l, ch * l + l);
    let f = |k: int| num(r, x[k]);
    let g = |k: int| num(r, input[ch * l + k]);
    assert forall|k: int| 0 <= k < l implies #[trigger] f(k) == g(k) by {}
    equal_sums(f, g, l as int);
    assert(whole_run(r, x, 0, l as int)) by {
        assert forall|k: int| 0 <= k < 0 + l implies is_whole(r, #[trigger] x[k]) by {
            assert(is_whole(r, input[ch * l + k]));
        }
    }
    sums_add_up(a, r, x, l as int);
    let total = total_of(a, x, l as int);
    assert(pooled(a, input, c, l)[ch] == value(
        a,
        Scalar::Mul(total, value(a, Scalar::Div(ONE, value(a, Scalar::Count(l))))),
    ));
}

/// The magnitude of a bin is the length of its hypotenuse: with whole parts whose squares add up to
/// a square, it is the root.
pub proof fn magnitudes_are_hypotenuses<A: Fn(Scalar) -> u32>(
    a: A,
    r: spec_fn(u32) -> Option<int>,
    re: u32,
    im: u32,
    h: int,
)
    requires
        exact(a, r),
        is_whole(r, re),
        is_whole(r, im),
        0 <= h <= 0x1000,
        num(r, re) * num(r, re) + num(r, im) * num(r, im) == h * h,
    ensures
        r(magnitude_of(a, re, im)) == Some(h),
{
    let (p, q) = (num(r, re), num(r, im));
    assert(0 <= p * p <= 0x100_0000 && 0 <= q * q <= 0x100_0000 && h * h <= 0x100_0000)
        by (nonlinear_arith)
        requires
            p * p + q * q == h * h,
            0 <= h <= 0x1000,
    ;
    assert(small(h));
}

/// A convolution without a bias begins at zero, one with a bias at that of its channel.
pub proof fn biases_belong_to_channels(bias: Option<&[u32]>, o: int)
    ensures
        bias is None ==> bias_of(bias, o) == 0,
        bias matches Some(b) ==> bias_of(bias, o) == b@[o],
{
}

} // verus!
