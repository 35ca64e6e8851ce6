//! Group-wise int8 quantization: the views and the integer arithmetic.
//!
//! The scheme is symmetric: every run of `group_size` consecutive values shares one
//! scale, and value `k` stands for `data[k] * scales[k / group_size]`.

use vstd::arithmetic::overflow::CheckedUsize;
use vstd::prelude::*;

use crate::error::EngineError;
use crate::layout::{cut, product, saturate};
#[allow(unused_imports)]
use crate::layout::{joined, lens_of, offset, offset_grows, part, saturated, total, true_lens};
#[allow(unused_imports)]
use crate::math::sum;
#[allow(unused_imports)]
use vstd::arithmetic::power2::{
    lemma2_to64, lemma_pow2_pos, lemma_pow2_strictly_increases, lemma_pow2_unfold, pow2,
};
#[allow(unused_imports)]
use vstd::bits::{lemma_u64_pow2_no_overflow, lemma_u64_shl_is_mul};
#[allow(unused_imports)]
use vstd::layout::size_of;

verus! {

/// A group-wise quantized matrix: 8-bit values plus one scale per group.
///
/// A tensor typically spans every layer of one projection; [`QuantizedTensor::layer`]
/// slices out a single layer's matrix.
#[derive(Debug, Clone, Copy)]
pub struct QuantizedTensor<'a, S> {
    /// The quantized values, row-major.
    pub data: &'a [i8],
    /// One scale per group of `group_size` values.
    pub scales: &'a [S],
    /// How many consecutive values share a scale.
    pub group_size: usize,
}

impl<'a, S> QuantizedTensor<'a, S> {
    /// Borrow layer `l`'s `[rows, cols]` sub-matrix.
    ///
    /// Layers lie back to back: layer `l` occupies `rows * cols` values at offset
    /// `l * rows * cols`, with `rows * cols / group_size` scales at offset
    /// `l * (rows * cols / group_size)`.
    pub fn layer(&self, l: usize, rows: usize, cols: usize) -> (r: QuantizedTensor<'a, S>)
        requires
            self.group_size > 0,
            rows * cols <= usize::MAX,
            (l + 1) * (rows * cols) <= self.data@.len(),
            (l + 1) * ((rows * cols) as nat / self.group_size as nat) <= self.scales@.len(),
        ensures
            r.group_size == self.group_size,
            r.data@ == self.data@.subrange(l * (rows * cols), (l + 1) * (rows * cols)),
            ({
                let g = (rows * cols) as nat / self.group_size as nat;
                r.scales@ == self.scales@.subrange(l * g as int, (l + 1) * g as int)
            }),
    {
        let n: usize = rows * cols;
        let g: usize = n / self.group_size;
        let data = self.data;
        let scales = self.scales;
        proof {
            assert((l + 1) * n == l * n + n) by (nonlinear_arith);
            assert((l + 1) * g == l * g + g) by (nonlinear_arith);
            assert(0 <= l * n && 0 <= l * g) by (nonlinear_arith)
                requires
                    0 <= l,
                    0 <= n,
                    0 <= g,
            ;
            assert(data.len() == data@.len() && scales.len() == scales@.len());
        }
        QuantizedTensor {
            data: vstd::slice::slice_subrange(data, l * n, l * n + n),
            scales: vstd::slice::slice_subrange(scales, l * g, l * g + g),
            group_size: self.group_size,
        }
    }
}

/// The number of whole groups in each tensor.
pub open spec fn group_lens(lens: Seq<nat>, group_size: nat) -> Seq<nat> {
    lens.map_values(|n: nat| n / group_size)
}

/// The whole groups of the parts never exceed the whole groups of the total.
pub proof fn groups_fit(lens: Seq<nat>, group_size: nat, i: int)
    requires
        group_size > 0,
        0 <= i <= lens.len(),
    ensures
        offset(group_lens(lens, group_size), i) * group_size <= offset(lens, i),
        offset(group_lens(lens, group_size), i) <= offset(lens, i) / group_size,
    decreases i,
{
    let g = group_lens(lens, group_size);
    if i > 0 {
        groups_fit(lens, group_size, i - 1);
        assert(g[i - 1] == lens[i - 1] / group_size);
        let a = offset(g, i - 1);
        let b = g[i - 1];
        let n = lens[i - 1];
        assert((n / group_size) * group_size <= n) by (nonlinear_arith)
            requires
                group_size > 0,
        ;
        assert((a + b) * group_size == a * group_size + b * group_size) by (nonlinear_arith);
        assert(offset(g, i) * group_size == (a + b) * group_size);
    } else {
        assert(0 * group_size == 0) by (nonlinear_arith);
        assert(offset(g, i) == 0);
    }
    let q = offset(g, i);
    let t = offset(lens, i);
    assert(q <= t / group_size) by (nonlinear_arith)
        requires
            group_size > 0,
            q * group_size <= t,
    ;
}

/// Where every part is a run of whole groups, the groups make up the parts.
pub proof fn groups_exact(lens: Seq<nat>, group_size: nat, i: int)
    requires
        group_size > 0,
        0 <= i <= lens.len(),
        forall|k: int| 0 <= k < lens.len() ==> #[trigger] lens[k] % group_size == 0,
    ensures
        offset(group_lens(lens, group_size), i) * group_size == offset(lens, i),
        offset(group_lens(lens, group_size), i) == offset(lens, i) / group_size,
        offset(lens, i) % group_size == 0,
    decreases i,
{
    let g = group_lens(lens, group_size);
    if i > 0 {
        groups_exact(lens, group_size, i - 1);
        let a = offset(g, i - 1);
        let n = lens[i - 1];
        let b = g[i - 1];
        assert(b == n / group_size);
        assert(n % group_size == 0);
        assert((a + b) * group_size == a * group_size + n) by (nonlinear_arith)
            requires
                group_size > 0,
                n % group_size == 0,
                b == n / group_size,
        ;
    } else {
        assert(0 * group_size == 0) by (nonlinear_arith);
    }
    let q = offset(g, i);
    let t = offset(lens, i);
    assert(q == t / group_size && t % group_size == 0) by (nonlinear_arith)
        requires
            group_size > 0,
            q * group_size == t,
    ;
}

/// Whether `t` is quantized tensor `i` of the two flat buffers.
pub open spec fn is_quantized_part<S>(
    t: QuantizedTensor<'_, S>,
    data: Seq<i8>,
    scales: Seq<S>,
    lens: Seq<nat>,
    group_size: nat,
    i: int,
) -> bool {
    &&& t.data@ == part(data, lens, i)
    &&& t.scales@ == part(scales, group_lens(lens, group_size), i)
    &&& t.group_size == group_size
}

/// Take quantized tensor `i` of two flat buffers, behind two cursors that stand where its
/// values and its scales begin.
pub fn quantized_part<'a, S>(
    data: &'a [i8],
    scales: &'a [S],
    lens: &[CheckedUsize],
    i: usize,
    group_size: usize,
    at: &mut usize,
    scale_at: &mut usize,
) -> (r: QuantizedTensor<'a, S>)
    requires
        group_size > 0,
        i < lens@.len(),
        *old(at) == offset(true_lens(lens@), i as int),
        *old(scale_at) == offset(group_lens(true_lens(lens@), group_size as nat), i as int),
        total(true_lens(lens@)) <= data@.len(),
        total(true_lens(lens@)) / group_size as nat <= scales@.len(),
    ensures
        *final(at) == offset(true_lens(lens@), i + 1),
        *final(scale_at) == offset(group_lens(true_lens(lens@), group_size as nat), i + 1),
        is_quantized_part(
            r,
            data@,
            scales@,
            true_lens(lens@),
            group_size as nat,
            i as int,
        ),
{
    let ghost tl = true_lens(lens@);
    let ghost gl = group_lens(tl, group_size as nat);
    proof {
        offset_grows(tl, i + 1, tl.len() as int);
        offset_grows(gl, i + 1, gl.len() as int);
        groups_fit(tl, group_size as nat, tl.len() as int);
        assert(gl[i as int] == tl[i as int] / group_size as nat);
        assert(data.len() == data@.len() && scales.len() == scales@.len());
    }
    let n: usize = lens[i].unwrap();
    QuantizedTensor {
        data: cut(data, at, n),
        scales: cut(scales, scale_at, n / group_size),
        group_size,
    }
}

/// Whether a group quantizer takes every group of `group_size` values and gives back as
/// many int8 values.
pub open spec fn quantizes_groups<T, F: Fn(&[T]) -> (Vec<i8>, T)>(f: F, group_size: nat) -> bool {
    &&& forall|g: &[T]| g@.len() == group_size ==> #[trigger] call_requires(f, (g,))
    &&& forall|g: &[T], r: (Vec<i8>, T)|
        g@.len() == group_size && #[trigger] call_ensures(f, (g,), r) ==> r.0@.len() == group_size
}

/// Whether a group quantizer gives one result for one group of values.
pub open spec fn is_function<T, F: Fn(&[T]) -> (Vec<i8>, T)>(f: F) -> bool {
    forall|a: &[T], b: &[T], r: (Vec<i8>, T), s: (Vec<i8>, T)|
        a@ == b@ && #[trigger] call_ensures(f, (a,), r) && #[trigger] call_ensures(f, (b,), s)
            ==> r.0@ == s.0@ && r.1 == s.1
}

/// Whether `data` and `scale` are what the group quantizer gave for `group`.
pub open spec fn quantized_group<T, F: Fn(&[T]) -> (Vec<i8>, T)>(
    f: F,
    group: Seq<T>,
    data: Seq<i8>,
    scale: T,
) -> bool {
    exists|g: &[T], r: (Vec<i8>, T)|
        g@ == group && #[trigger] call_ensures(f, (g,), r) && r.0@ == data && r.1 == scale
}

/// Group `g` of a sequence.
pub open spec fn group_of<T>(s: Seq<T>, group_size: int, g: int) -> Seq<T> {
    s.subrange(g * group_size, g * group_size + group_size)
}

/// Whether `data` and `scales` are `x` quantized group by group.
#[verifier::opaque]
pub open spec fn quantized_as<T, F: Fn(&[T]) -> (Vec<i8>, T)>(
    f: F,
    x: Seq<T>,
    group_size: nat,
    data: Seq<i8>,
    scales: Seq<T>,
) -> bool {
    &&& data.len() == x.len()
    &&& scales.len() == x.len() / group_size
    &&& forall|g: int|
        0 <= g < scales.len() ==> quantized_group(
            f,
            #[trigger] group_of(x, group_size as int, g),
            group_of(data, group_size as int, g),
            scales[g],
        )
}

/// A group lies within what its sequence holds.
pub proof fn group_bounds(len: nat, group_size: nat, g: int)
    requires
        group_size > 0,
        0 <= g < len / group_size,
    ensures
        0 <= g * group_size,
        g * group_size + group_size <= len,
{
    let q = len / group_size;
    assert(q * group_size <= len) by (nonlinear_arith)
        requires
            q == len / group_size,
            group_size > 0,
    ;
    assert(0 <= g * group_size && g * group_size + group_size <= q * group_size)
        by (nonlinear_arith)
        requires
            0 <= g < q,
            group_size > 0,
    ;
}

/// A sequence of whole groups is as long as its groups.
pub proof fn whole_groups(len: nat, group_size: nat)
    requires
        group_size > 0,
        len % group_size == 0,
    ensures
        (len / group_size) * group_size == len,
{
    assert((len / group_size) * group_size == len) by (nonlinear_arith)
        requires
            group_size > 0,
            len % group_size == 0,
    ;
}

/// Quantize `x` into `data` from `at` on, and its scales into `scales` from `scale_at` on.
pub fn quantize_at<T: Copy, F: Fn(&[T]) -> (Vec<i8>, T)>(
    data: &mut [i8],
    at: usize,
    scales: &mut [T],
    scale_at: usize,
    x: &[T],
    group_size: usize,
    f: &F,
)
    requires
        group_size > 0,
        x@.len() % group_size as nat == 0,
        at + x@.len() <= old(data)@.len(),
        scale_at + x@.len() / group_size as nat <= old(scales)@.len(),
        quantizes_groups(*f, group_size as nat),
    ensures
        final(data)@.len() == old(data)@.len(),
        final(scales)@.len() == old(scales)@.len(),
        ({
            let end = at + x@.len();
            let scale_end = scale_at + x@.len() / group_size as nat;
            &&& quantized_as(
                *f,
                x@,
                group_size as nat,
                final(data)@.subrange(at as int, end as int),
                final(scales)@.subrange(scale_at as int, scale_end as int),
            )
            &&& final(data)@.subrange(0, at as int) == old(data)@.subrange(0, at as int)
            &&& final(scales)@.subrange(0, scale_at as int) == old(scales)@.subrange(
                0,
                scale_at as int,
            )
        }),
{
    proof {
        reveal(quantized_as);
    }
    let groups: usize = x.len() / group_size;
    let ghost gs = group_size as int;
    let ghost end = at + x@.len();
    let ghost scale_end = scale_at + groups;
    proof {
        whole_groups(x@.len(), group_size as nat);
        assert(x.len() == x@.len());
        assert(data.len() == data@.len() && scales.len() == scales@.len());
    }
    let mut g: usize = 0;
    while g < groups
        invariant
            g <= groups,
            gs == group_size,
            group_size > 0,
            groups == x@.len() / group_size as nat,
            groups * group_size == x@.len(),
            end == at + x@.len(),
            scale_end == scale_at + groups,
            end <= data@.len() <= usize::MAX,
            scale_end <= scales@.len() <= usize::MAX,
            quantizes_groups(*f, group_size as nat),
            data@.len() == old(data)@.len(),
            scales@.len() == old(scales)@.len(),
            data@.subrange(0, at as int) == old(data)@.subrange(0, at as int),
            scales@.subrange(0, scale_at as int) == old(scales)@.subrange(0, scale_at as int),
            forall|h: int|
                0 <= h < g ==> quantized_group(
                    *f,
                    #[trigger] group_of(x@, gs, h),
                    data@.subrange(at + h * gs, at + h * gs + gs),
                    scales@[scale_at + h],
                ),
        decreases groups - g,
    {
        proof {
            group_bounds(x@.len(), group_size as nat, g as int);
        }
        let base: usize = g * group_size;
        let group = vstd::slice::slice_subrange(x, base, base + group_size);
        let (values, scale) = f(group);
        let ghost before = data@;
        let ghost before_scales = scales@;
        proof {
            assert(quantized_group(*f, group_of(x@, gs, g as int), values@, scale));
        }
        let mut k: usize = 0;
        while k < group_size
            invariant
                k <= group_size,
                base == g * gs,
                gs == group_size,
                values@.len() == group_size,
                at + base + group_size <= data@.len() <= usize::MAX,
                data@.len() == before.len(),
                forall|j: int| 0 <= j < at + base ==> #[trigger] data@[j] == before[j],
                forall|j: int|
                    at + base <= j < at + base + k ==> #[trigger] data@[j] == values@[j - at - base],
            decreases group_size - k,
        {
            data[at + base + k] = values[k];
            k = k + 1;
        }
        scales[scale_at + g] = scale;
        proof {
            assert(data@.subrange(0, at as int) =~= before.subrange(0, at as int));
            assert(scales@.subrange(0, scale_at as int) =~= before_scales.subrange(
                0,
                scale_at as int,
            ));
            assert forall|h: int| 0 <= h < g + 1 implies quantized_group(
                *f,
                #[trigger] group_of(x@, gs, h),
                data@.subrange(at + h * gs, at + h * gs + gs),
                scales@[scale_at + h],
            ) by {
                if h < g {
                    assert(0 <= h * gs && h * gs + gs <= g * gs) by (nonlinear_arith)
                        requires
                            0 <= h < g,
                            gs > 0,
                    ;
                    assert(data@.subrange(at + h * gs, at + h * gs + gs) =~= before.subrange(
                        at + h * gs,
                        at + h * gs + gs,
                    ));
                } else {
                    assert(data@.subrange(at + h * gs, at + h * gs + gs) =~= values@);
                }
            }
        }
        g = g + 1;
    }
    proof {
        let out = data@.subrange(at as int, end as int);
        let out_scales = scales@.subrange(scale_at as int, scale_end as int);
        assert forall|h: int| 0 <= h < groups implies quantized_group(
            *f,
            #[trigger] group_of(x@, gs, h),
            group_of(out, gs, h),
            out_scales[h],
        ) by {
            group_bounds(x@.len(), group_size as nat, h);
            assert(group_of(out, gs, h) =~= data@.subrange(at + h * gs, at + h * gs + gs));
        }
    }
}

/// Quantize `x` group by group, each group with the quantizer `f`, into `data` and
/// `scales`, both of which are filled completely.
pub fn quantize<T: Copy, F: Fn(&[T]) -> (Vec<i8>, T)>(
    data: &mut [i8],
    scales: &mut [T],
    x: &[T],
    group_size: usize,
    f: &F,
)
    requires
        group_size > 0,
        x@.len() % group_size as nat == 0,
        old(data)@.len() == x@.len(),
        old(scales)@.len() == x@.len() / group_size as nat,
        quantizes_groups(*f, group_size as nat),
    ensures
        quantized_as(*f, x@, group_size as nat, final(data)@, final(scales)@),
{
    quantize_at(data, 0, scales, 0, x, group_size, f);
    proof {
        assert(data@.subrange(0, data@.len() as int) =~= data@);
        assert(scales@.subrange(0, scales@.len() as int) =~= scales@);
    }
}

/// Sums of int8 values are small.
pub proof fn sums_are_small(x: Seq<i8>, n: int)
    requires
        0 <= n <= x.len(),
    ensures
        -128 * n <= sum(x, n) <= 127 * n,
    decreases n,
{
    if n > 0 {
        sums_are_small(x, n - 1);
    }
}

/// Quantize an activation like [`quantize`], and record the sum of each group's int8
/// values.
pub fn quantize_activation<T: Copy, F: Fn(&[T]) -> (Vec<i8>, T)>(
    out: &mut [i8],
    scales: &mut [T],
    gsums: &mut [i32],
    x: &[T],
    group_size: usize,
    f: &F,
)
    requires
        0 < group_size <= 0xff_ffff,
        x@.len() % group_size as nat == 0,
        old(out)@.len() == x@.len(),
        old(scales)@.len() == x@.len() / group_size as nat,
        old(gsums)@.len() == x@.len() / group_size as nat,
        quantizes_groups(*f, group_size as nat),
    ensures
        quantized_as(*f, x@, group_size as nat, final(out)@, final(scales)@),
        final(gsums)@.len() == old(gsums)@.len(),
        forall|g: int|
            0 <= g < final(gsums)@.len() ==> #[trigger] final(gsums)@[g] == sum(
                group_of(final(out)@, group_size as int, g),
                group_size as int,
            ),
{
    quantize(out, scales, x, group_size, f);
    let groups: usize = x.len() / group_size;
    let ghost gs = group_size as int;
    proof {
        quantized_lengths(*f, x@, group_size as nat, out@, scales@);
        assert(out.len() == out@.len());
    }
    let mut g: usize = 0;
    while g < groups
        invariant
            g <= groups,
            gs == group_size,
            0 < group_size <= 0xff_ffff,
            groups == out@.len() / group_size as nat,
            out@.len() <= usize::MAX,
            gsums@.len() == groups,
            forall|h: int|
                0 <= h < g ==> #[trigger] gsums@[h] == sum(group_of(out@, gs, h), gs),
        decreases groups - g,
    {
        proof {
            group_bounds(out@.len(), group_size as nat, g as int);
        }
        let base: usize = g * group_size;
        let mut acc: i32 = 0;
        let mut k: usize = 0;
        let ghost group = group_of(out@, gs, g as int);
        while k < group_size
            invariant
                k <= group_size <= 0xff_ffff,
                gs == group_size,
                base == g * gs,
                base + group_size <= out@.len() <= usize::MAX,
                group == group_of(out@, gs, g as int),
                acc == sum(group, k as int),
            decreases group_size - k,
        {
            proof {
                sums_are_small(group, k as int);
                assert(group[k as int] == out@[base + k]);
            }
            acc = acc + out[base + k] as i32;
            k = k + 1;
        }
        gsums[g] = acc;
        g = g + 1;
    }
}

/// Dequantize: every value together with its group's scale, by `f`.
pub fn dequantize<T: Copy, F: Fn(i8, T) -> T>(out: &mut [T], qx: &QuantizedTensor<'_, T>, f: &F)
    requires
        qx.group_size > 0,
        old(out)@.len() == qx.data@.len(),
        qx.data@.len() <= qx.scales@.len() * qx.group_size,
        forall|v: i8, s: T| #[trigger] call_requires(*f, (v, s)),
    ensures
        final(out)@.len() == old(out)@.len(),
        forall|k: int|
            0 <= k < final(out)@.len() ==> call_ensures(
                *f,
                (qx.data@[k], qx.scales@[k / qx.group_size as int]),
                #[trigger] final(out)@[k],
            ),
{
    let n: usize = out.len();
    let mut k: usize = 0;
    while k < n
        invariant
            k <= n,
            n == out@.len(),
            n == qx.data@.len(),
            out@.len() == old(out)@.len(),
            qx.group_size > 0,
            qx.data@.len() <= qx.scales@.len() * qx.group_size,
            forall|v: i8, s: T| #[trigger] call_requires(*f, (v, s)),
            forall|j: int|
                0 <= j < k ==> call_ensures(
                    *f,
                    (qx.data@[j], qx.scales@[j / qx.group_size as int]),
                    #[trigger] out@[j],
                ),
        decreases n - k,
    {
        let gs: usize = qx.group_size;
        let g: usize = k / gs;
        let ghost groups = qx.scales@.len();
        proof {
            assert(g < groups) by (nonlinear_arith)
                requires
                    g == k as nat / gs as nat,
                    k < groups * gs,
                    gs > 0,
            ;
        }
        out[k] = f(qx.data[k], qx.scales[g]);
        k = k + 1;
    }
}

/// The contents of a list of tensors.
pub open spec fn contents<T>(tensors: Seq<&[T]>) -> Seq<Seq<T>> {
    tensors.map_values(|t: &[T]| t@)
}

/// Quantize tensors one after the other into two flat buffers, both of which are filled
/// completely.
pub fn quantize_all<T: Copy, F: Fn(&[T]) -> (Vec<i8>, T)>(
    tensors: &[&[T]],
    data: &mut [i8],
    scales: &mut [T],
    group_size: usize,
    f: &F,
)
    requires
        group_size > 0,
        quantizes_groups(*f, group_size as nat),
        forall|i: int|
            0 <= i < tensors@.len() ==> (#[trigger] contents(tensors@)[i]).len() % group_size as nat
                == 0,
        old(data)@.len() == total(lens_of(contents(tensors@))),
        old(scales)@.len() == total(group_lens(lens_of(contents(tensors@)), group_size as nat)),
    ensures
        final(data)@.len() == old(data)@.len(),
        final(scales)@.len() == old(scales)@.len(),
        ({
            let lens = lens_of(contents(tensors@));
            forall|i: int|
                0 <= i < tensors@.len() ==> quantized_as(
                    *f,
                    #[trigger] contents(tensors@)[i],
                    group_size as nat,
                    part(final(data)@, lens, i),
                    part(final(scales)@, group_lens(lens, group_size as nat), i),
                )
        }),
{
    let ghost views = contents(tensors@);
    let ghost lens = lens_of(views);
    let ghost groups = group_lens(lens, group_size as nat);
    let mut at: usize = 0;
    let mut scale_at: usize = 0;
    let mut i: usize = 0;
    proof {
        assert(data.len() == data@.len() && scales.len() == scales@.len());
    }
    while i < tensors.len()
        invariant
            i <= tensors@.len(),
            views == contents(tensors@),
            lens == lens_of(views),
            groups == group_lens(lens, group_size as nat),
            group_size > 0,
            quantizes_groups(*f, group_size as nat),
            forall|i: int|
                0 <= i < tensors@.len() ==> (#[trigger] views[i]).len() % group_size as nat == 0,
            data@.len() == old(data)@.len(),
            scales@.len() == old(scales)@.len(),
            data@.len() == total(lens),
            scales@.len() == total(groups),
            data@.len() <= usize::MAX,
            scales@.len() <= usize::MAX,
            at == offset(lens, i as int),
            scale_at == offset(groups, i as int),
            forall|j: int|
                0 <= j < i ==> quantized_as(
                    *f,
                    #[trigger] views[j],
                    group_size as nat,
                    part(data@, lens, j),
                    part(scales@, groups, j),
                ),
        decreases tensors@.len() - i,
    {
        let x = tensors[i];
        let ghost before = data@;
        let ghost before_scales = scales@;
        proof {
            assert(views[i as int] == x@);
            assert(lens[i as int] == x@.len());
            assert(groups[i as int] == x@.len() / group_size as nat);
            offset_grows(lens, i + 1, lens.len() as int);
            offset_grows(groups, i + 1, groups.len() as int);
        }
        quantize_at(data, at, scales, scale_at, x, group_size, f);
        proof {
            assert forall|j: int| 0 <= j < i + 1 implies quantized_as(
                *f,
                #[trigger] views[j],
                group_size as nat,
                part(data@, lens, j),
                part(scales@, groups, j),
            ) by {
                if j < i {
                    offset_grows(lens, 0, j);
                    offset_grows(lens, j + 1, i as int);
                    offset_grows(groups, 0, j);
                    offset_grows(groups, j + 1, i as int);
                    same_part(before, data@, lens, j, at as int);
                    same_part(before_scales, scales@, groups, j, scale_at as int);
                }
            }
        }
        at = at + x.len();
        scale_at = scale_at + x.len() / group_size;
        i = i + 1;
    }
}

/// A part that lies in a common prefix of two sequences is the same in both.
proof fn same_part<T>(a: Seq<T>, b: Seq<T>, lens: Seq<nat>, j: int, end: int)
    requires
        0 <= j < lens.len(),
        offset(lens, j + 1) <= end <= a.len(),
        a.len() == b.len(),
        a.subrange(0, end) == b.subrange(0, end),
    ensures
        part(a, lens, j) == part(b, lens, j),
{
    let lo = offset(lens, j) as int;
    let hi = offset(lens, j + 1) as int;
    assert(a.subrange(lo, hi) =~= a.subrange(0, end).subrange(lo, hi));
    assert(b.subrange(lo, hi) =~= b.subrange(0, end).subrange(lo, hi));
}

/// A quantizer that is a function gives one result for one input.
pub proof fn quantized_once<T, F: Fn(&[T]) -> (Vec<i8>, T)>(
    f: F,
    x: Seq<T>,
    group_size: nat,
    d1: Seq<i8>,
    s1: Seq<T>,
    d2: Seq<i8>,
    s2: Seq<T>,
)
    requires
        group_size > 0,
        x.len() % group_size == 0,
        is_function(f),
        quantized_as(f, x, group_size, d1, s1),
        quantized_as(f, x, group_size, d2, s2),
    ensures
        d1 == d2,
        s1 == s2,
{
    reveal(quantized_as);
    let gs = group_size as int;
    assert forall|g: int| 0 <= g < s1.len() implies #[trigger] s1[g] == s2[g] && group_of(
        d1,
        gs,
        g,
    ) == group_of(d2, gs, g) by {
        assert(quantized_group(f, group_of(x, gs, g), group_of(d1, gs, g), s1[g]));
        assert(quantized_group(f, group_of(x, gs, g), group_of(d2, gs, g), s2[g]));
    }
    assert(s1 =~= s2);
    whole_groups(x.len(), group_size);
    assert forall|k: int| 0 <= k < d1.len() implies d1[k] == d2[k] by {
        let g = k / gs;
        let q = s1.len() as int;
        assert(0 <= g < q && 0 <= k - g * gs < gs) by (nonlinear_arith)
            requires
                g == k / gs,
                gs > 0,
                0 <= k < q * gs,
        ;
        assert(s1[g] == s2[g]);
        group_bounds(x.len(), group_size, g);
        assert(group_of(d1, gs, g)[k - g * gs] == d1[k]);
        assert(group_of(d2, gs, g)[k - g * gs] == d2[k]);
    }
    assert(d1 =~= d2);
}

/// Quantizing two runs of whole groups one after the other is quantizing them as one.
pub proof fn quantized_concat<T, F: Fn(&[T]) -> (Vec<i8>, T)>(
    f: F,
    x: Seq<T>,
    y: Seq<T>,
    group_size: nat,
    dx: Seq<i8>,
    sx: Seq<T>,
    dy: Seq<i8>,
    sy: Seq<T>,
)
    requires
        group_size > 0,
        x.len() % group_size == 0,
        y.len() % group_size == 0,
        quantized_as(f, x, group_size, dx, sx),
        quantized_as(f, y, group_size, dy, sy),
    ensures
        quantized_as(f, x + y, group_size, dx + dy, sx + sy),
        (x + y).len() % group_size == 0,
{
    reveal(quantized_as);
    let gs = group_size as int;
    let a = sx.len() as int;
    let b = sy.len() as int;
    whole_groups(x.len(), group_size);
    whole_groups(y.len(), group_size);
    assert((x.len() + y.len()) == (a + b) * gs) by (nonlinear_arith)
        requires
            a * gs == x.len(),
            b * gs == y.len(),
    ;
    assert((a + b) * gs / gs == a + b && ((a + b) * gs) % gs == 0) by (nonlinear_arith)
        requires
            gs > 0,
    ;
    assert forall|g: int| 0 <= g < (sx + sy).len() implies quantized_group(
        f,
        #[trigger] group_of(x + y, gs, g),
        group_of(dx + dy, gs, g),
        (sx + sy)[g],
    ) by {
        if g < a {
            group_bounds(x.len(), group_size, g);
            assert(group_of(x + y, gs, g) =~= group_of(x, gs, g));
            assert(group_of(dx + dy, gs, g) =~= group_of(dx, gs, g));
        } else {
            let h = g - a;
            group_bounds(y.len(), group_size, h);
            assert(g * gs == a * gs + h * gs) by (nonlinear_arith)
                requires
                    h == g - a,
            ;
            assert(group_of(x + y, gs, g) =~= group_of(y, gs, h));
            assert(group_of(dx + dy, gs, g) =~= group_of(dy, gs, h));
        }
    }
}

/// Quantized values are as many as the values, and their scales as many as the groups.
pub proof fn quantized_lengths<T, F: Fn(&[T]) -> (Vec<i8>, T)>(
    f: F,
    x: Seq<T>,
    group_size: nat,
    data: Seq<i8>,
    scales: Seq<T>,
)
    requires
        quantized_as(f, x, group_size, data, scales),
    ensures
        data.len() == x.len(),
        scales.len() == x.len() / group_size,
{
    reveal(quantized_as);
}

/// Tensors that are quantized one by one into the parts of flat buffers are quantized, as
/// one run, into the buffers.
#[verifier::spinoff_prover]
#[verifier::rlimit(40)]
pub proof fn quantized_run<T, F: Fn(&[T]) -> (Vec<i8>, T)>(
    f: F,
    views: Seq<Seq<T>>,
    group_size: nat,
    data: Seq<i8>,
    scales: Seq<T>,
    k: int,
)
    requires
        group_size > 0,
        0 <= k <= views.len(),
        data.len() == total(lens_of(views)),
        scales.len() == total(group_lens(lens_of(views), group_size)),
        forall|i: int| 0 <= i < views.len() ==> (#[trigger] views[i]).len() % group_size == 0,
        forall|i: int|
            0 <= i < views.len() ==> quantized_as(
                f,
                #[trigger] views[i],
                group_size,
                part(data, lens_of(views), i),
                part(scales, group_lens(lens_of(views), group_size), i),
            ),
    ensures
        ({
            let end = offset(lens_of(views), k) as int;
            let scale_end = offset(group_lens(lens_of(views), group_size), k) as int;
            &&& end <= data.len()
            &&& scale_end <= scales.len()
            &&& joined(views, k).len() % group_size == 0
            &&& quantized_as(
                f,
                joined(views, k),
                group_size,
                data.take(end),
                scales.take(scale_end),
            )
        }),
    decreases k,
{
    let lens = lens_of(views);
    let groups = group_lens(lens, group_size);
    offset_grows(lens, k, lens.len() as int);
    offset_grows(groups, k, groups.len() as int);
    if k == 0 {
        assert(0nat / group_size == 0 && 0nat % group_size == 0) by (nonlinear_arith)
            requires
                group_size > 0,
        ;
        reveal(quantized_as);
    } else {
        quantized_run(f, views, group_size, data, scales, k - 1);
        offset_grows(lens, 0, k - 1);
        offset_grows(groups, 0, k - 1);
        quantized_concat(
            f,
            joined(views, k - 1),
            views[k - 1],
            group_size,
            data.take(offset(lens, k - 1) as int),
            scales.take(offset(groups, k - 1) as int),
            part(data, lens, k - 1),
            part(scales, groups, k - 1),
        );
        assert(data.take(offset(lens, k) as int) =~= data.take(offset(lens, k - 1) as int) + part(
            data,
            lens,
            k - 1,
        ));
        assert(scales.take(offset(groups, k) as int) =~= scales.take(
            offset(groups, k - 1) as int,
        ) + part(scales, groups, k - 1));
    }
}

/// Per-matmul activation scratch for the int8 path: the quantized activation with its
/// per-group scales and sums.
pub struct QuantScratch<'buf, S> {
    /// Quantized activation values.
    pub xq: &'buf mut [i8],
    /// Per-group activation scales.
    pub scales: &'buf mut [S],
    /// Per-group activation sums.
    pub gsums: &'buf mut [i32],
}

/// The shortest of three lengths.
pub open spec fn shortest(a: nat, b: nat, c: nat) -> nat {
    if a <= b && a <= c {
        a
    } else if b <= c {
        b
    } else {
        c
    }
}

/// The error for scratch buffers of `x`, `s` and `g` elements where `need` are due: the bytes
/// that are due in the shortest of them, the first on ties, and those that it has.
pub open spec fn short_scratch<S>(need: nat, x: nat, s: nat, g: nat) -> EngineError {
    let have = shortest(x, s, g);
    let size = if x == have {
        1
    } else if s == have {
        size_of::<S>()
    } else {
        4
    };
    EngineError::ArenaOverflow {
        requested: saturated((need * size) as int),
        available: saturated((have * size) as int),
    }
}

impl<'buf, S> QuantScratch<'buf, S> {
    /// Bundle three buffers, each of which must hold at least `need` elements.
    ///
    /// Fails with [`EngineError::ArenaOverflow`] if one is shorter, and reports the shortest.
    pub fn new(
        xq: &'buf mut [i8],
        scales: &'buf mut [S],
        gsums: &'buf mut [i32],
        need: usize,
    ) -> (r: Result<QuantScratch<'buf, S>, EngineError>)
        ensures
            ({
                let have = shortest(old(xq)@.len(), old(scales)@.len(), old(gsums)@.len());
                match r {
                    Ok(q) => {
                        &&& need <= have
                        &&& q.xq@ == old(xq)@ && final(q.xq)@ == final(xq)@
                        &&& q.scales@ == old(scales)@ && final(q.scales)@ == final(scales)@
                        &&& q.gsums@ == old(gsums)@ && final(q.gsums)@ == final(gsums)@
                    },
                    Err(e) => {
                        &&& need > have
                        &&& e == short_scratch::<S>(
                            need as nat,
                            old(xq)@.len(),
                            old(scales)@.len(),
                            old(gsums)@.len(),
                        )
                        &&& final(xq)@ == old(xq)@
                        &&& final(scales)@ == old(scales)@
                        &&& final(gsums)@ == old(gsums)@
                    },
                }
            }),
    {
        let mut have: usize = xq.len();
        let mut size: usize = 1;
        if scales.len() < have {
            have = scales.len();
            size = core::mem::size_of::<S>();
        }
        if gsums.len() < have {
            have = gsums.len();
            size = 4;
        }
        if have < need {
            return Err(
                EngineError::ArenaOverflow {
                    requested: saturate(&product(need, size)),
                    available: saturate(&product(have, size)),
                },
            );
        }
        Ok(QuantScratch { xq, scales, gsums })
    }
}

/// `a * b / 2^31`, rounded to the nearest integer, ties upwards; the one product that
/// would leave the range of `i32` is cut off.
pub open spec fn high_mul(a: int, b: int) -> int {
    if a == i32::MIN && b == i32::MIN {
        i32::MAX as int
    } else {
        (a * b + 0x4000_0000) / 0x8000_0000
    }
}

/// `x / 2^exponent`, rounded to the nearest integer, ties away from zero.
pub open spec fn rounded_shift(x: int, exponent: nat) -> int {
    let p = pow2(exponent) as int;
    if x >= 0 {
        (x + p / 2) / p
    } else {
        -((-x + p / 2) / p)
    }
}

/// `x` shifted left by a positive `shift` (modulo 32), keeping 32 bits.
pub open spec fn left_shifted(x: i32, shift: i32) -> i32 {
    if shift > 0 {
        x << (shift as u32 % 32)
    } else {
        x
    }
}

/// By how many places a shift moves to the left.
pub open spec fn left_places(shift: i32) -> nat {
    if shift > 0 {
        shift as nat
    } else {
        0
    }
}

/// By how many places a shift moves to the right.
pub open spec fn right_places(shift: i32) -> nat {
    if shift > 0 {
        0
    } else {
        (-shift) as nat
    }
}

/// `x * mult * 2^(shift - 31)` in fixed point.
pub open spec fn requantized(x: i32, mult: i32, shift: i32) -> int {
    rounded_shift(
        high_mul(left_shifted(x, shift) as int, mult as int),
        right_places(shift),
    )
}

/// Saturating rounding doubling high-multiply: `round(a * b / 2^31)`.
fn sat_round_doubling_high_mul(a: i32, b: i32) -> (r: i32)
    ensures
        r == high_mul(a as int, b as int),
{
    if a == i32::MIN && b == i32::MIN {
        return i32::MAX;
    }
    proof {
        product_range(a, b);
    }
    let ab: i64 = a as i64 * b as i64;
    let r: i64 = if ab >= 0 {
        ((ab as u64 + 0x4000_0000) / 0x8000_0000) as i64
    } else {
        -((((-ab) as u64 + 0x3fff_ffff) / 0x8000_0000) as i64)
    };
    r as i32
}

/// The product of two `i32` values fits an `i64`, and a high-multiply an `i32`.
proof fn product_range(a: i32, b: i32)
    ensures
        -0x4000_0000_0000_0000 <= a * b <= 0x4000_0000_0000_0000,
        !(a == i32::MIN && b == i32::MIN) ==> a * b <= 0x3fff_ffff_8000_0000,
{
    assert(-0x4000_0000_0000_0000 <= a * b <= 0x4000_0000_0000_0000) by (nonlinear_arith)
        requires
            -0x8000_0000 <= a <= 0x7fff_ffff,
            -0x8000_0000 <= b <= 0x7fff_ffff,
    ;
    if !(a == i32::MIN && b == i32::MIN) {
        assert(a * b <= 0x3fff_ffff_8000_0000) by (nonlinear_arith)
            requires
                -0x8000_0000 <= a <= 0x7fff_ffff,
                -0x8000_0000 <= b <= 0x7fff_ffff,
                a > -0x8000_0000 || b > -0x8000_0000,
        ;
    }
}

/// Round-to-nearest right shift by `exponent` bits.
fn rounding_divide_by_pot(x: i32, exponent: u32) -> (r: i32)
    requires
        exponent <= 30,
    ensures
        r == rounded_shift(x as int, exponent as nat),
{
    proof {
        lemma_pow2_pos(exponent as nat);
        lemma_u64_pow2_no_overflow(exponent as nat);
        lemma_u64_shl_is_mul(1, exponent as u64);
    }
    let p: u64 = 1u64 << exponent as u64;
    proof {
        power_below(exponent as nat);
        assert(p == pow2(exponent as nat));
    }
    if x >= 0 {
        let n: u64 = (x as u64 + p / 2) / p;
        proof {
            quotient_range(x as int + p as int / 2, p as int, x as int);
        }
        n as i32
    } else {
        let m: u64 = (-(x as i64)) as u64;
        let n: u64 = (m + p / 2) / p;
        proof {
            quotient_range(m as int + p as int / 2, p as int, m as int);
        }
        (-(n as i64)) as i32
    }
}

/// Powers of two up to the thirtieth.
proof fn power_below(e: nat)
    requires
        e <= 30,
    ensures
        1 <= pow2(e) <= 0x4000_0000,
    decreases 30 - e,
{
    lemma_pow2_pos(e);
    if e < 30 {
        power_below(e + 1);
        lemma_pow2_strictly_increases(e, e + 1);
    } else {
        lemma2_to64();
    }
}

/// Rounding a nonnegative value to a multiple of `p` does not grow it beyond itself.
proof fn quotient_range(n: int, p: int, m: int)
    requires
        p >= 1,
        m >= 0,
        n == m + p / 2,
    ensures
        0 <= n / p <= m,
{
    assert(0 <= n / p) by (nonlinear_arith)
        requires
            n >= 0,
            p >= 1,
    ;
    assert(n / p <= m) by (nonlinear_arith)
        requires
            p >= 1,
            m >= 0,
            n == m + p / 2,
    ;
}

/// Multiply an accumulator by the quantized multiplier `mult * 2^(shift - 31)`: the
/// integer-only requantization step.
pub fn requantize(x: i32, mult: i32, shift: i32) -> (r: i32)
    requires
        shift >= -30,
    ensures
        r == requantized(x, mult, shift),
{
    let left: i32 = if shift > 0 {
        shift
    } else {
        0
    };
    let right: u32 = if shift > 0 {
        0
    } else {
        (-shift) as u32
    };
    let x: i32 = if left > 0 {
        x.wrapping_shl(left as u32)
    } else {
        x
    };
    rounding_divide_by_pot(sat_round_doubling_high_mul(x, mult), right)
}

/// A left shift that loses no bits is a multiplication.
proof fn shift_is_product(x: i32, n: u32)
    requires
        n <= 31,
        i32::MIN <= x * pow2(n as nat) <= i32::MAX,
    ensures
        x << n == x * pow2(n as nat),
    decreases n,
{
    if n == 0 {
        lemma2_to64();
        assert(x << 0u32 == x) by (bit_vector);
    } else {
        let m = (n - 1) as u32;
        let p = pow2(m as nat) as int;
        lemma_pow2_unfold(n as nat);
        assert(x * pow2(n as nat) == 2 * (x * p)) by (nonlinear_arith)
            requires
                pow2(n as nat) == 2 * p,
        ;
        shift_is_product(x, m);
        let y = x << m;
        assert(x << n == (x << m) << 1u32) by (bit_vector)
            requires
                n == m + 1,
                n <= 31,
        ;
        assert(y << 1u32 == 2 * y) by (bit_vector)
            requires
                -0x4000_0000 <= y < 0x4000_0000,
        ;
    }
}

/// A left shift is a multiplication wherever the product fits.
proof fn left_shift_is_product(x: i32, shift: i32)
    requires
        i32::MIN <= x * pow2(left_places(shift)) <= i32::MAX,
    ensures
        left_shifted(x, shift) == x * pow2(left_places(shift)),
{
    let p = pow2(left_places(shift)) as int;
    if shift <= 0 {
        lemma2_to64();
    } else if shift <= 31 {
        shift_is_product(x, shift as u32);
    } else {
        lemma2_to64();
        if shift > 32 {
            lemma_pow2_strictly_increases(32, shift as nat);
        }
        assert(x == 0) by (nonlinear_arith)
            requires
                p >= 0x1_0000_0000,
                -0x8000_0000 <= x * p <= 0x7fff_ffff,
        ;
        let k = shift as u32 % 32;
        assert(0i32 << k == 0) by (bit_vector)
            requires
                k < 32,
        ;
    }
}

/// Requantizing is multiplying by `mult * 2^(shift - 31)` and rounding, wherever a left shift
/// loses no bits: the result is within half a unit of the product, and within three quarters
/// of a unit where a right shift rounds a second time. The unit is `2^31`, shifted as the
/// result is.
pub proof fn requantize_is_close(x: i32, mult: i32, shift: i32)
    requires
        shift >= -30,
        i32::MIN <= x * pow2(left_places(shift)) <= i32::MAX,
        !(x * pow2(left_places(shift)) == i32::MIN && mult == i32::MIN),
    ensures
        ({
            let unit = 0x8000_0000 * pow2(right_places(shift));
            let error = requantized(x, mult, shift) * unit - x * pow2(left_places(shift)) * mult;
            if shift >= 0 {
                -unit <= 2 * error <= unit
            } else {
                -3 * unit <= 4 * error <= 3 * unit
            }
        }),
{
    let right = right_places(shift);
    let p = pow2(right) as int;
    let y = left_shifted(x, shift) as int;
    left_shift_is_product(x, shift);
    let ab = y * mult;
    let h = high_mul(y, mult as int);
    let r = requantized(x, mult, shift);
    lemma_pow2_pos(right);
    assert(-0x4000_0000 <= h * 0x8000_0000 - ab <= 0x4000_0000);
    if right == 0 {
        lemma2_to64();
        assert(r == h);
    } else {
        lemma_pow2_unfold(right);
        lemma_pow2_pos((right - 1) as nat);
        assert(p >= 2);
        assert(-p <= 2 * (r * p - h) <= p) by {
            if h >= 0 {
                rounding_error(h, p);
            } else {
                rounding_error(-h, p);
                assert(r * p == -((-r) * p)) by (nonlinear_arith);
            }
        }
    }
    assert(r * (0x8000_0000 * p) == 0x8000_0000 * (r * p)) by (nonlinear_arith);
}

/// Rounding a nonnegative value to a multiple of `p` moves it by half of `p` at most.
proof fn rounding_error(m: int, p: int)
    requires
        m >= 0,
        p >= 1,
    ensures
        -p <= 2 * (((m + p / 2) / p) * p - m) <= p,
{
    let n = m + p / 2;
    let q = n / p;
    assert(q * p <= n < q * p + p) by (nonlinear_arith)
        requires
            q == n / p,
            p >= 1,
    ;
}

/// A part of two flat buffers has its length, and a scale per group.
pub proof fn quantized_part_lengths<S>(
    data: Seq<i8>,
    scales: Seq<S>,
    lens: Seq<nat>,
    group_size: nat,
    i: int,
)
    requires
        group_size > 0,
        0 <= i < lens.len(),
        data.len() >= total(lens),
        scales.len() >= total(lens) / group_size,
    ensures
        part(data, lens, i).len() == lens[i],
        part(scales, group_lens(lens, group_size), i).len() == lens[i] / group_size,
{
    let g = group_lens(lens, group_size);
    offset_grows(lens, i + 1, lens.len() as int);
    groups_fit(lens, group_size, i + 1);
    let (all, here) = (total(lens), offset(lens, i + 1));
    assert(here / group_size <= all / group_size) by (nonlinear_arith)
        requires
            group_size > 0,
            here <= all,
    ;
    assert(offset(lens, i + 1) == offset(lens, i) + lens[i]);
    assert(offset(g, i + 1) == offset(g, i) + g[i]);
}

} // verus!
