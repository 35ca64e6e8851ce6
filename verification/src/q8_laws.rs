//! What group quantization keeps: the greatest magnitude of a group sets its scale, whole multiples
//! of the scale come back as they were, and a quantized product is the product of what the bytes
//! and scales stand for.

use vstd::prelude::*;

use crate::math::row_group_dot;
use crate::nn_laws::dots_add_up;
use crate::order::{at_most, is_nan};
use crate::q8::{
    group_data, group_peak, group_scale, int8_data, int8_scales, low_byte, scaled_sum,
};
use crate::quant::group_of;
use crate::scalar::{absolute, value, Scalar, RAIL, ZERO};
use crate::whole::{bounded, bounded_part, exact, int_sum, is_whole, num, small};

verus! {

/// The peak of a group is the greatest of the magnitudes, and one of them unless all are zero.
pub proof fn the_peak_is_the_greatest_magnitude(x: Seq<u32>, n: int)
    requires
        0 <= n <= x.len(),
        forall|k: int| 0 <= k < n ==> !is_nan(#[trigger] x[k]),
    ensures
        !is_nan(group_peak(x, n)),
        forall|k: int| 0 <= k < n ==> at_most(absolute(#[trigger] x[k]), group_peak(x, n)),
        group_peak(x, n) == ZERO || exists|k: int|
            0 <= k < n && group_peak(x, n) == absolute(#[trigger] x[k]),
    decreases n,
{
    if n > 0 {
        the_peak_is_the_greatest_magnitude(x, n - 1);
        assert(!is_nan(x[n - 1]));
        if group_peak(x, n) == group_peak(x, n - 1) && group_peak(x, n - 1) != ZERO {
            let k = choose|k: int| 0 <= k < n - 1 && group_peak(x, n - 1) == absolute(#[trigger] x[k]);
            assert(group_peak(x, n) == absolute(x[k]));
        } else if group_peak(x, n) != ZERO {
            assert(group_peak(x, n) == absolute(x[n - 1]));
        }
    }
}

/// Whether rounding gives back the whole numbers that a byte holds, and the greatest byte is what
/// its pattern says.
pub open spec fn rounds_whole_numbers<A: Fn(Scalar) -> u32>(
    a: A,
    r: spec_fn(u32) -> Option<int>,
) -> bool {
    &&& r(RAIL) == Some(127int)
    &&& forall|x: u32|
        is_whole(r, x) && -127 <= num(r, x) <= 127 ==> low_byte(
            #[trigger] value(a, Scalar::Nearest(x)),
        ) == num(r, x)
}

/// A group whose greatest magnitude is 127 times a whole number has that number as its scale, and
/// every element that is a multiple of it is stored as the factor: the factor times the scale is
/// the element again.
pub proof fn whole_multiples_come_back<A: Fn(Scalar) -> u32>(
    a: A,
    r: spec_fn(u32) -> Option<int>,
    x: Seq<u32>,
    s: int,
    k: int,
    factor: int,
)
    requires
        exact(a, r),
        rounds_whole_numbers(a, r),
        0 <= k < x.len(),
        0 < s <= 0x1_0000,
        is_whole(r, group_peak(x, x.len() as int)),
        num(r, group_peak(x, x.len() as int)) == 127 * s,
        is_whole(r, x[k]),
        -127 <= factor <= 127,
        num(r, x[k]) == s * factor,
        absolute(group_scale(a, x)) != 0,
    ensures
        r(group_scale(a, x)) == Some(s),
        group_data(a, x).len() == x.len(),
        group_data(a, x)[k] == factor,
        r(
            value(
                a,
                Scalar::Mul(
                    value(a, Scalar::Int(group_data(a, x)[k] as i32)),
                    group_scale(a, x),
                ),
            ),
        ) == r(x[k]),
{
    assert(small(s));
    let scale = group_scale(a, x);
    assert(r(scale) == Some(s));
    assert(small(factor));
    let q = value(a, Scalar::Div(x[k], scale));
    assert(r(q) == Some(factor));
    assert(small(factor * s)) by (nonlinear_arith)
        requires
            -127 <= factor <= 127,
            0 < s <= 0x1_0000,
    ;
    assert(s * factor == factor * s) by (nonlinear_arith);
    let byte = group_data(a, x)[k];
    assert(r(value(a, Scalar::Int(byte as i32))) == Some(factor));
}

/// Every element of a tensor is quantized with its own group: the elements from `g * size` on make
/// up group `g`.
pub proof fn elements_go_by_their_group<A: Fn(Scalar) -> u32>(
    a: A,
    x: Seq<u32>,
    size: int,
    g: int,
    k: int,
)
    requires
        0 < size,
        0 <= g < x.len() / size as nat,
        0 <= k < size,
        g * size + k < x.len(),
    ensures
        int8_data(a, x, size).len() == x.len(),
        int8_data(a, x, size)[g * size + k] == group_data(
            a,
            x.subrange(g * size, (g + 1) * size),
        )[k],
        int8_scales(a, x, size).len() == x.len() / size as nat,
        int8_scales(a, x, size)[g] == group_scale(a, x.subrange(g * size, (g + 1) * size)),
{
    vstd::arithmetic::div_mod::lemma_fundamental_div_mod_converse(g * size + k, size, g, k);
    assert(g * size == size * g) by (nonlinear_arith);
    assert((g + 1) * size == g * size + size) by (nonlinear_arith);
    assert(group_of(x, size, g) == x.subrange(g * size, (g + 1) * size));
}

/// What group `g` adds to row `i` of a quantized product: the products of its bytes, times the scale
/// of the row's group, times the scale of the input's group.
pub open spec fn group_term(
    r: spec_fn(u32) -> Option<int>,
    data: Seq<i8>,
    ws: Seq<u32>,
    xq: Seq<i8>,
    xs: Seq<u32>,
    d_in: int,
    gs: int,
    i: int,
) -> spec_fn(int) -> int {
    |g: int|
        int_sum(|k: int| data[i * d_in + g * gs + k] * xq[g * gs + k], gs) * num(
            r,
            ws[i * (d_in / gs) + g],
        ) * num(r, xs[g])
}

/// With whole scales, row `i` of a quantized product adds up, group by group, the products of the
/// bytes times the scales of both groups.
pub proof fn quantized_products_add_up<A: Fn(Scalar) -> u32>(
    a: A,
    r: spec_fn(u32) -> Option<int>,
    data: Seq<i8>,
    ws: Seq<u32>,
    xq: Seq<i8>,
    xs: Seq<u32>,
    d_in: int,
    gs: int,
    i: int,
    n: int,
)
    requires
        exact(a, r),
        0 <= n,
        forall|g: int|
            0 <= g < n ==> is_whole(r, #[trigger] xs[g]) && is_whole(r, ws[i * (d_in / gs) + g])
                && small(
                int_sum(|k: int| data[i * d_in + g * gs + k] * xq[g * gs + k], gs),
            ) && small(
                int_sum(|k: int| data[i * d_in + g * gs + k] * xq[g * gs + k], gs) * num(
                    r,
                    ws[i * (d_in / gs) + g],
                ),
            ),
        bounded(group_term(r, data, ws, xq, xs, d_in, gs, i), n),
    ensures
        r(scaled_sum(a, data, ws, xq, xs, d_in, gs, i, n)) == Some(
            int_sum(group_term(r, data, ws, xq, xs, d_in, gs, i), n),
        ),
    decreases n,
{
    if n > 0 {
        let f = group_term(r, data, ws, xq, xs, d_in, gs, i);
        bounded_part(f, n - 1, n);
        bounded_part(f, n, n);
        quantized_products_add_up(a, r, data, ws, xq, xs, d_in, gs, i, n - 1);
        let g = n - 1;
        assert(is_whole(r, xs[g]));
        let d = row_group_dot(data, xq, d_in, gs, i, g);
        dots_add_up(data, xq, i * d_in + g * gs, g * gs, gs);
        let p = |k: int| data[i * d_in + g * gs + k] * xq[g * gs + k];
        assert(d == int_sum(p, gs));
        let whole = value(a, Scalar::Int(d as i32));
        assert(r(whole) == Some(d));
        let scaled = value(a, Scalar::Mul(whole, ws[i * (d_in / gs) + g]));
        assert(r(scaled) == Some(d * num(r, ws[i * (d_in / gs) + g])));
        assert(f(g) == d * num(r, ws[i * (d_in / gs) + g]) * num(r, xs[g]));
    }
}

/// A rounded value is stored as its low eight bits, the highest of them as the sign.
pub proof fn bytes_are_the_low_bits(v: u32)
    ensures
        low_byte(v) == if v % 256 < 128 {
            v as int % 256
        } else {
            v as int % 256 - 256
        },
{
    assert(v % 256 < 128 ==> (v as u8) as i8 == v % 256) by (bit_vector);
    assert(v % 256 >= 128 ==> (v as u8) as i8 == v % 256 - 256) by (bit_vector);
}

/// A group with no scale, all of whose elements are zero, is stored as zeros.
pub proof fn groups_of_zeros_are_zeros<A: Fn(Scalar) -> u32>(a: A, x: Seq<u32>, k: int)
    requires
        0 <= k < x.len(),
        absolute(group_scale(a, x)) == 0,
    ensures
        group_data(a, x)[k] == 0,
{
}

} // verus!
