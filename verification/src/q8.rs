//! Int8 matrix products: activations are quantized group by group, the products of a group
//! are summed exactly in integers, and only the group sums are scaled.

use vstd::prelude::*;

use crate::math::{group_sum, matmul_group_dots, Kernel};
#[allow(unused_imports)]
use crate::math::{dot, fits, row_group_dot, short_dots_fit, sum};
use crate::order::gt;
#[allow(unused_imports)]
use crate::order::greater;
use crate::quant::{quantize_activation, QuantScratch, QuantizedTensor};
#[allow(unused_imports)]
use crate::quant::{
    group_bounds, group_of, quantized_as, quantized_group, quantizes_groups, sums_are_small,
};
use crate::scalar::{abs, eval, Scalar, RAIL, ZERO};
#[allow(unused_imports)]
use crate::scalar::{absolute, is_arithmetic, over, plus, times, value};

verus! {

/// The largest magnitude among the first `n` values.
pub open spec fn group_peak(x: Seq<u32>, n: int) -> u32
    decreases n,
{
    if n <= 0 {
        ZERO
    } else if greater(absolute(x[n - 1]), group_peak(x, n - 1)) {
        absolute(x[n - 1])
    } else {
        group_peak(x, n - 1)
    }
}

/// The scale of a group: the largest magnitude is mapped to the end of the range.
pub open spec fn group_scale<A: Fn(Scalar) -> u32>(a: A, x: Seq<u32>) -> u32 {
    over(a, group_peak(x, x.len() as int), RAIL)
}

/// The byte in the low eight bits.
pub open spec fn low_byte(v: u32) -> i8 {
    (v as u8) as i8
}

/// The values of a group over its scale, to the nearest integer; zero where the scale is
/// zero.
pub open spec fn group_data<A: Fn(Scalar) -> u32>(a: A, x: Seq<u32>) -> Seq<i8> {
    Seq::new(
        x.len(),
        |k: int|
            if absolute(group_scale(a, x)) != 0 {
                low_byte(value(a, Scalar::Nearest(over(a, x[k], group_scale(a, x)))))
            } else {
                0i8
            },
    )
}

/// Quantize one group: its values as signed bytes, and their scale.
pub fn quantize_group<A: Fn(Scalar) -> u32>(x: &[u32], a: &A) -> (r: (Vec<i8>, u32))
    requires
        is_arithmetic(*a),
    ensures
        r.0@ == group_data(*a, x@),
        r.1 == group_scale(*a, x@),
{
    let n: usize = x.len();
    let mut peak: u32 = ZERO;
    let mut i: usize = 0;
    while i < n
        invariant
            i <= n,
            n == x@.len(),
            peak == group_peak(x@, i as int),
        decreases n - i,
    {
        let m: u32 = abs(x[i]);
        if gt(m, peak) {
            peak = m;
        }
        i = i + 1;
    }
    let scale: u32 = eval(a, Scalar::Div(peak, RAIL));
    let mut data: Vec<i8> = Vec::new();
    let mut i: usize = 0;
    while i < n
        invariant
            i <= n,
            n == x@.len(),
            is_arithmetic(*a),
            scale == group_scale(*a, x@),
            data@.len() == i,
            forall|k: int| 0 <= k < i ==> #[trigger] data@[k] == group_data(*a, x@)[k],
        decreases n - i,
    {
        if abs(scale) != 0 {
            let ratio: u32 = eval(a, Scalar::Div(x[i], scale));
            let byte: u32 = eval(a, Scalar::Nearest(ratio));
            data.push((byte as u8) as i8);
        } else {
            data.push(0);
        }
        i = i + 1;
    }
    proof {
        assert(data@ =~= group_data(*a, x@));
    }
    (data, scale)
}

/// All values, quantized group by group.
pub open spec fn int8_data<A: Fn(Scalar) -> u32>(a: A, x: Seq<u32>, group_size: int) -> Seq<i8> {
    Seq::new(
        x.len(),
        |k: int| group_data(a, group_of(x, group_size, k / group_size))[k % group_size],
    )
}

/// The scales of all groups.
pub open spec fn int8_scales<A: Fn(Scalar) -> u32>(a: A, x: Seq<u32>, group_size: int) -> Seq<
    u32,
> {
    Seq::new(
        x.len() / group_size as nat,
        |g: int| group_scale(a, group_of(x, group_size, g)),
    )
}

/// Whether `f` quantizes a group as [`quantize_group`] does.
pub open spec fn is_group_quantizer<
    A: Fn(Scalar) -> u32,
    F: Fn(&[u32]) -> (Vec<i8>, u32),
>(a: A, f: F) -> bool {
    forall|g: &[u32], r: (Vec<i8>, u32)| #[trigger]
        call_ensures(f, (g,), r) ==> r.0@ == group_data(a, g@) && r.1 == group_scale(a, g@)
}

/// What a group quantizer gives for all groups.
pub proof fn quantizer_gives<A: Fn(Scalar) -> u32, F: Fn(&[u32]) -> (Vec<i8>, u32)>(
    a: A,
    f: F,
    x: Seq<u32>,
    group_size: nat,
    data: Seq<i8>,
    scales: Seq<u32>,
)
    requires
        group_size > 0,
        x.len() % group_size == 0,
        is_group_quantizer(a, f),
        quantized_as(f, x, group_size, data, scales),
    ensures
        data == int8_data(a, x, group_size as int),
        scales == int8_scales(a, x, group_size as int),
{
    reveal(quantized_as);
    let gs = group_size as int;
    assert forall|g: int| 0 <= g < scales.len() implies #[trigger] scales[g] == group_scale(
        a,
        group_of(x, gs, g),
    ) && group_of(data, gs, g) == group_data(a, group_of(x, gs, g)) by {
        assert(quantized_group(f, group_of(x, gs, g), group_of(data, gs, g), scales[g]));
    }
    assert(scales =~= int8_scales(a, x, gs));
    assert forall|k: int| 0 <= k < data.len() implies #[trigger] data[k] == int8_data(
        a,
        x,
        gs,
    )[k] by {
        let g = k / gs;
        let m = k % gs;
        assert(k == g * gs + m && 0 <= m < gs && 0 <= g < x.len() as int / gs)
            by (nonlinear_arith)
            requires
                gs > 0,
                0 <= k < x.len(),
                x.len() as int % gs == 0,
                g == k / gs,
                m == k % gs,
        ;
        assert(scales[g] == group_scale(a, group_of(x, gs, g)));
        group_bounds(x.len(), group_size, g);
        assert(group_of(data, gs, g)[m] == data[k]);
    }
    assert(data =~= int8_data(a, x, gs));
}

/// The scaled group sums of row `i`, the first `n` groups.
pub open spec fn scaled_sum<A: Fn(Scalar) -> u32>(
    a: A,
    data: Seq<i8>,
    w_scales: Seq<u32>,
    xq: Seq<i8>,
    x_scales: Seq<u32>,
    d_in: int,
    group_size: int,
    i: int,
    n: int,
) -> u32
    decreases n,
{
    if n <= 0 {
        ZERO
    } else {
        let groups = d_in / group_size;
        let sum = row_group_dot(data, xq, d_in, group_size, i, n - 1);
        plus(
            a,
            scaled_sum(a, data, w_scales, xq, x_scales, d_in, group_size, i, n - 1),
            times(
                a,
                times(
                    a,
                    value(a, Scalar::Int(sum as i32)),
                    w_scales[i * groups + (n - 1)],
                ),
                x_scales[n - 1],
            ),
        )
    }
}

/// The product of a quantized matrix and a quantized vector.
pub open spec fn q8_product<A: Fn(Scalar) -> u32>(
    a: A,
    data: Seq<i8>,
    scales: Seq<u32>,
    group_size: int,
    xq: Seq<i8>,
    x_scales: Seq<u32>,
    d_in: int,
    d_out: nat,
) -> Seq<u32> {
    Seq::new(
        d_out,
        |i: int|
            scaled_sum(
                a,
                data,
                scales,
                xq,
                x_scales,
                d_in,
                group_size,
                i,
                d_in / group_size,
            ),
    )
}

/// Whether a quantized matrix and vector fit together.
pub open spec fn q8_shaped(
    w: QuantizedTensor<'_, u32>,
    xq: Seq<i8>,
    x_scales: Seq<u32>,
    d_in: usize,
    d_out: usize,
) -> bool {
    &&& 0 < w.group_size < 0x2_0000
    &&& d_in % w.group_size == 0
    &&& xq.len() == d_in
    &&& w.data@.len() == d_out * d_in
    &&& w.scales@.len() == d_out * (d_in as nat / w.group_size as nat)
    &&& x_scales.len() == d_in as nat / w.group_size as nat
}

/// The sums of the activation's groups.
pub open spec fn group_sums_are(xq: Seq<i8>, sums: Seq<i32>, group_size: int) -> bool {
    &&& sums.len() == xq.len() / group_size as nat
    &&& forall|g: int|
        0 <= g < sums.len() ==> #[trigger] sums[g] == sum(group_of(xq, group_size, g), group_size)
}

/// The product by one kernel; every kernel gives the same.
fn q8_by<A: Fn(Scalar) -> u32>(
    kernel: Kernel,
    out: &mut [u32],
    xq: &[i8],
    x_scales: &[u32],
    x_sums: &[i32],
    w: &QuantizedTensor<'_, u32>,
    d_in: usize,
    d_out: usize,
    a: &A,
)
    requires
        is_arithmetic(*a),
        old(out)@.len() == d_out,
        q8_shaped(*w, xq@, x_scales@, d_in, d_out),
        group_sums_are(xq@, x_sums@, w.group_size as int),
    ensures
        final(out)@ == q8_product(
            *a,
            w.data@,
            w.scales@,
            w.group_size as int,
            xq@,
            x_scales@,
            d_in as int,
            d_out as nat,
        ),
{
    let gs: usize = w.group_size;
    let data = w.data;
    let scales = w.scales;
    let groups: usize = d_in / gs;
    proof {
        assert forall|i: int, g: int, n: int|
            0 <= i < d_out && 0 <= g < x_sums@.len() && 0 <= n <= gs implies fits(
            #[trigger] dot(data@, xq@, i * d_in + g * gs, g * gs, n),
        ) by {
            short_dots_fit(data@, xq@, i * d_in + g * gs, g * gs, n);
        }
        assert forall|g: int| 0 <= g < x_sums@.len() implies #[trigger] x_sums@[g] == sum(
            xq@.subrange(g * gs, g * gs + gs),
            gs as int,
        ) by {
            assert(x_sums@[g] == sum(group_of(xq@, gs as int, g), gs as int));
        }
    }
    proof {
        assert(scales.len() == scales@.len());
    }
    let dots = matmul_group_dots(kernel, data, gs, xq, x_sums, d_in, d_out);
    let mut i: usize = 0;
    while i < d_out
        invariant
            i <= d_out,
            is_arithmetic(*a),
            out@.len() == d_out,
            gs == w.group_size,
            gs > 0,
            groups == d_in as nat / gs as nat,
            data@ == w.data@,
            scales@ == w.scales@,
            scales@.len() == d_out * groups,
            scales@.len() <= usize::MAX,
            x_scales@.len() == groups,
            dots@.len() == d_out * groups,
            forall|i: int, g: int|
                0 <= i < d_out && 0 <= g < groups ==> #[trigger] dots@[i * groups + g]
                    == row_group_dot(data@, xq@, d_in as int, gs as int, i, g),
            forall|k: int|
                0 <= k < i ==> #[trigger] out@[k] == q8_product(
                    *a,
                    w.data@,
                    w.scales@,
                    gs as int,
                    xq@,
                    x_scales@,
                    d_in as int,
                    d_out as nat,
                )[k],
        decreases d_out - i,
    {
        proof {
            assert(0 <= i * groups && i * groups + groups <= d_out * groups) by (nonlinear_arith)
                requires
                    0 <= i < d_out,
                    0 <= groups,
            ;
        }
        let row: usize = i * groups;
        let mut total: u32 = ZERO;
        let mut g: usize = 0;
        while g < groups
            invariant
                g <= groups,
                i < d_out,
                row == i * groups,
                row + groups <= scales@.len(),
                scales@.len() <= usize::MAX,
                is_arithmetic(*a),
                gs > 0,
                groups == d_in as nat / gs as nat,
                dots@.len() == scales@.len(),
                x_scales@.len() == groups,
                forall|i: int, g: int|
                    0 <= i < d_out && 0 <= g < groups ==> #[trigger] dots@[i * groups + g]
                        == row_group_dot(data@, xq@, d_in as int, gs as int, i, g),
                total == scaled_sum(
                    *a,
                    data@,
                    scales@,
                    xq@,
                    x_scales@,
                    d_in as int,
                    gs as int,
                    i as int,
                    g as int,
                ),
            decreases groups - g,
        {
            proof {
                assert(dots@[i * groups + g] == row_group_dot(
                    data@,
                    xq@,
                    d_in as int,
                    gs as int,
                    i as int,
                    g as int,
                ));
                assert(d_in as int / gs as int == groups);
            }
            let sum: u32 = eval(a, Scalar::Int(dots[row + g]));
            let by_weight: u32 = eval(a, Scalar::Mul(sum, scales[row + g]));
            let scaled: u32 = eval(a, Scalar::Mul(by_weight, x_scales[g]));
            total = eval(a, Scalar::Add(total, scaled));
            g = g + 1;
        }
        out[i] = total;
        i = i + 1;
    }
    proof {
        assert(out@ =~= q8_product(
            *a,
            w.data@,
            w.scales@,
            w.group_size as int,
            xq@,
            x_scales@,
            d_in as int,
            d_out as nat,
        ));
    }
}

/// The sums of the activation's groups.
fn sums_of(xq: &[i8], group_size: usize) -> (r: Vec<i32>)
    requires
        0 < group_size < 0x2_0000,
    ensures
        group_sums_are(xq@, r@, group_size as int),
{
    let groups: usize = xq.len() / group_size;
    let mut r: Vec<i32> = Vec::new();
    let mut g: usize = 0;
    while g < groups
        invariant
            g <= groups,
            0 < group_size < 0x2_0000,
            groups == xq@.len() / group_size as nat,
            xq@.len() <= usize::MAX,
            r@.len() == g,
            forall|h: int|
                0 <= h < g ==> #[trigger] r@[h] == sum(
                    group_of(xq@, group_size as int, h),
                    group_size as int,
                ),
        decreases groups - g,
    {
        proof {
            group_bounds(xq@.len(), group_size as nat, g as int);
        }
        let base: usize = g * group_size;
        let group = vstd::slice::slice_subrange(xq, base, base + group_size);
        proof {
            assert forall|n: int| 0 <= n <= group@.len() implies fits(
                #[trigger] sum(group@, n),
            ) by {
                sums_are_small(group@, n);
            }
        }
        r.push(group_sum(group));
        g = g + 1;
    }
    r
}

/// The product of a quantized matrix and a quantized vector, one element at a time.
pub fn matmul_q8<A: Fn(Scalar) -> u32>(
    out: &mut [u32],
    xq: &[i8],
    x_scales: &[u32],
    qw: &QuantizedTensor<'_, u32>,
    d_in: usize,
    d_out: usize,
    a: &A,
)
    requires
        is_arithmetic(*a),
        old(out)@.len() == d_out,
        q8_shaped(*qw, xq@, x_scales@, d_in, d_out),
    ensures
        final(out)@ == q8_product(
            *a,
            qw.data@,
            qw.scales@,
            qw.group_size as int,
            xq@,
            x_scales@,
            d_in as int,
            d_out as nat,
        ),
{
    let sums = sums_of(xq, qw.group_size);
    q8_by(Kernel::Scalar, out, xq, x_scales, sums.as_slice(), qw, d_in, d_out, a);
}

/// The product of a quantized matrix and a quantized vector, eight lanes at a time. It is
/// exactly that of [`matmul_q8`]: the group sums are exact.
pub fn matmul_q8_simd<A: Fn(Scalar) -> u32>(
    out: &mut [u32],
    xq: &[i8],
    x_scales: &[u32],
    qw: &QuantizedTensor<'_, u32>,
    d_in: usize,
    d_out: usize,
    a: &A,
)
    requires
        is_arithmetic(*a),
        old(out)@.len() == d_out,
        q8_shaped(*qw, xq@, x_scales@, d_in, d_out),
    ensures
        final(out)@ == q8_product(
            *a,
            qw.data@,
            qw.scales@,
            qw.group_size as int,
            xq@,
            x_scales@,
            d_in as int,
            d_out as nat,
        ),
{
    let sums = sums_of(xq, qw.group_size);
    q8_by(Kernel::Simd, out, xq, x_scales, sums.as_slice(), qw, d_in, d_out, a);
}

/// The product of a quantized matrix and a quantized vector with the weights offset to
/// unsigned bytes; `x_gsums` holds the sums of the activation's groups, which correct the
/// offset. It is exactly that of [`matmul_q8`].
pub fn matmul_q8_dotprod<A: Fn(Scalar) -> u32>(
    out: &mut [u32],
    xq: &[i8],
    x_scales: &[u32],
    x_gsums: &[i32],
    qw: &QuantizedTensor<'_, u32>,
    d_in: usize,
    d_out: usize,
    a: &A,
)
    requires
        is_arithmetic(*a),
        old(out)@.len() == d_out,
        q8_shaped(*qw, xq@, x_scales@, d_in, d_out),
        group_sums_are(xq@, x_gsums@, qw.group_size as int),
    ensures
        final(out)@ == q8_product(
            *a,
            qw.data@,
            qw.scales@,
            qw.group_size as int,
            xq@,
            x_scales@,
            d_in as int,
            d_out as nat,
        ),
{
    q8_by(Kernel::Dotprod, out, xq, x_scales, x_gsums, qw, d_in, d_out, a);
}

/// The product of a quantized matrix and a vector that is quantized on the way.
pub open spec fn w8a8_product<A: Fn(Scalar) -> u32>(
    a: A,
    data: Seq<i8>,
    scales: Seq<u32>,
    group_size: int,
    x: Seq<u32>,
    d_in: int,
    d_out: nat,
) -> Seq<u32> {
    q8_product(
        a,
        data,
        scales,
        group_size,
        int8_data(a, x, group_size),
        int8_scales(a, x, group_size),
        d_in,
        d_out,
    )
}

/// Quantize an activation into the scratch and multiply it with a quantized matrix. The
/// kernel changes speed, not the result.
pub fn matmul_w8a8<A: Fn(Scalar) -> u32>(
    kernel: Kernel,
    out: &mut [u32],
    x: &[u32],
    wl: &QuantizedTensor<'_, u32>,
    d_in: usize,
    d_out: usize,
    qs: &mut QuantScratch<'_, u32>,
    a: &A,
)
    requires
        is_arithmetic(*a),
        old(out)@.len() == d_out,
        x@.len() == d_in,
        0 < wl.group_size < 0x2_0000,
        d_in % wl.group_size == 0,
        wl.data@.len() == d_out * d_in,
        wl.scales@.len() == d_out * (d_in as nat / wl.group_size as nat),
        old(qs).xq@.len() >= d_in,
        old(qs).scales@.len() >= d_in as nat / wl.group_size as nat,
        old(qs).gsums@.len() >= d_in as nat / wl.group_size as nat,
    ensures
        final(out)@ == w8a8_product(
            *a,
            wl.data@,
            wl.scales@,
            wl.group_size as int,
            x@,
            d_in as int,
            d_out as nat,
        ),
        final(qs).xq@.len() == old(qs).xq@.len(),
        final(qs).scales@.len() == old(qs).scales@.len(),
        final(qs).gsums@.len() == old(qs).gsums@.len(),
{
    let gs: usize = wl.group_size;
    let groups: usize = d_in / gs;
    let (xq, _) = qs.xq.split_at_mut(d_in);
    let (scales, _) = qs.scales.split_at_mut(groups);
    let (sums, _) = qs.gsums.split_at_mut(groups);
    let f = |g: &[u32]| -> (r: (Vec<i8>, u32))
        ensures
            r.0@ == group_data(*a, g@),
            r.1 == group_scale(*a, g@),
        { quantize_group(g, a) };
    proof {
        assert forall|g: &[u32], r: (Vec<i8>, u32)|
            g@.len() == gs && #[trigger] call_ensures(f, (g,), r) implies r.0@.len() == gs by {}
        assert(quantizes_groups(f, gs as nat));
        assert(is_group_quantizer(*a, f));
    }
    quantize_activation(xq, scales, sums, x, gs, &f);
    proof {
        quantizer_gives(*a, f, x@, gs as nat, xq@, scales@);
    }
    q8_by(kernel, out, xq, scales, sums, wl, d_in, d_out, a);
}

} // verus!
