//! The integer half of the int8 matmul kernels, and the addressing of attention heads.
//!
//! An int8 matmul multiplies a quantized weight row with a quantized activation, group by
//! group. Within a group everything is integer: the three kernels here compute the same
//! sums, one element at a time, eight lanes at a time, or with weights offset to unsigned
//! bytes as hardware dot-product instructions want them.

use vstd::prelude::*;

verus! {

/// Which matmul kernels a forward pass uses. The choice changes speed, not results.
#[derive(Clone, Copy, Debug, PartialEq, Eq, Structural)]
pub enum Kernel {
    /// One element at a time.
    Scalar,
    /// Eight lanes at a time.
    Simd,
    /// Weights offset to unsigned bytes, for group sizes that are a multiple of 32.
    Dotprod,
}

/// SIMD width of the vectorized kernel.
pub const LANES: usize = 8;

/// `w[wo] * x[xo] + ... + w[wo + n - 1] * x[xo + n - 1]`.
pub open spec fn dot(w: Seq<i8>, x: Seq<i8>, wo: int, xo: int, n: int) -> int
    decreases n,
{
    if n <= 0 {
        0
    } else {
        dot(w, x, wo, xo, n - 1) + w[wo + n - 1] * x[xo + n - 1]
    }
}

/// `x[0] + ... + x[n - 1]`.
pub open spec fn sum(x: Seq<i8>, n: int) -> int
    decreases n,
{
    if n <= 0 {
        0
    } else {
        sum(x, n - 1) + x[n - 1]
    }
}

/// Whether a value fits an `i32`.
pub open spec fn fits(v: int) -> bool {
    i32::MIN <= v <= i32::MAX
}

/// Whether two values agree in their low 32 bits.
pub open spec fn congruent(a: int, b: int) -> bool {
    (a - b) % 0x1_0000_0000 == 0
}

/// The product of two bytes is small.
pub proof fn byte_product(a: i8, b: i8)
    ensures
        -16256 <= a * b <= 16384,
{
    assert(-16256 <= a * b <= 16384) by (nonlinear_arith)
        requires
            -128 <= a <= 127,
            -128 <= b <= 127,
    ;
}

/// Dot products of up to 2^17 - 1 elements fit an `i32`, and so does every partial sum.
pub proof fn short_dots_fit(w: Seq<i8>, x: Seq<i8>, wo: int, xo: int, n: int)
    requires
        0 <= n < 0x2_0000,
    ensures
        -16384 * n <= dot(w, x, wo, xo, n) <= 16384 * n,
        fits(dot(w, x, wo, xo, n)),
    decreases n,
{
    if n > 0 {
        short_dots_fit(w, x, wo, xo, n - 1);
        byte_product(w[wo + n - 1], x[xo + n - 1]);
    }
}

/// The integer dot product of two groups, one element at a time.
pub fn group_dot(w: &[i8], x: &[i8]) -> (r: i32)
    requires
        w@.len() == x@.len(),
        forall|n: int| 0 <= n <= w@.len() ==> fits(#[trigger] dot(w@, x@, 0, 0, n)),
    ensures
        r == dot(w@, x@, 0, 0, w@.len() as int),
{
    let mut acc: i32 = 0;
    let mut k: usize = 0;
    while k < w.len()
        invariant
            k <= w@.len(),
            w@.len() == x@.len(),
            forall|n: int| 0 <= n <= w@.len() ==> fits(#[trigger] dot(w@, x@, 0, 0, n)),
            acc == dot(w@, x@, 0, 0, k as int),
        decreases w@.len() - k,
    {
        proof {
            byte_product(w@[k as int], x@[k as int]);
            assert(fits(dot(w@, x@, 0, 0, k + 1)));
        }
        acc = acc + w[k] as i32 * x[k] as i32;
        k = k + 1;
    }
    acc
}

/// The sum of a group of activations.
pub fn group_sum(x: &[i8]) -> (r: i32)
    requires
        forall|n: int| 0 <= n <= x@.len() ==> fits(#[trigger] sum(x@, n)),
    ensures
        r == sum(x@, x@.len() as int),
{
    let mut acc: i32 = 0;
    let mut k: usize = 0;
    while k < x.len()
        invariant
            k <= x@.len(),
            forall|n: int| 0 <= n <= x@.len() ==> fits(#[trigger] sum(x@, n)),
            acc == sum(x@, k as int),
        decreases x@.len() - k,
    {
        proof {
            assert(fits(sum(x@, k + 1)));
        }
        acc = acc + x[k] as i32;
        k = k + 1;
    }
    acc
}

/// `wide::i32x8` multiplication: lane by lane, keeping the low 32 bits of each product.
#[verifier::external_body]
fn multiply_lanes(a: [i32; 8], b: [i32; 8]) -> (r: [i32; 8])
    ensures
        forall|i: int| 0 <= i < 8 ==> congruent(#[trigger] r@[i] as int, a@[i] * b@[i]),
{
    (wide::i32x8::new(a) * wide::i32x8::new(b)).to_array()
}

/// `wide::i32x8` addition: lane by lane, keeping the low 32 bits of each sum.
#[verifier::external_body]
fn add_lanes(a: [i32; 8], b: [i32; 8]) -> (r: [i32; 8])
    ensures
        forall|i: int| 0 <= i < 8 ==> congruent(#[trigger] r@[i] as int, a@[i] + b@[i]),
{
    (wide::i32x8::new(a) + wide::i32x8::new(b)).to_array()
}

/// `wide::i32x8::reduce_add`: the low 32 bits of the sum of all lanes.
#[verifier::external_body]
fn reduce_lanes(a: [i32; 8]) -> (r: i32)
    ensures
        congruent(r as int, a@[0] + a@[1] + a@[2] + a@[3] + a@[4] + a@[5] + a@[6] + a@[7]),
{
    wide::i32x8::new(a).reduce_add()
}

/// Widen eight bytes of `s` from `at` on.
fn widen_i8(s: &[i8], at: usize) -> (r: [i32; 8])
    requires
        at + 8 <= s.len(),
    ensures
        forall|i: int| 0 <= i < 8 ==> #[trigger] r@[i] == s@[at + i],
{
    [
        s[at] as i32,
        s[at + 1] as i32,
        s[at + 2] as i32,
        s[at + 3] as i32,
        s[at + 4] as i32,
        s[at + 5] as i32,
        s[at + 6] as i32,
        s[at + 7] as i32,
    ]
}

/// The part of a dot product over `chunks` chunks of eight that falls on one lane.
pub open spec fn lane_dot(w: Seq<i8>, x: Seq<i8>, lane: int, chunks: int) -> int
    decreases chunks,
{
    if chunks <= 0 {
        0
    } else {
        lane_dot(w, x, lane, chunks - 1) + w[8 * (chunks - 1) + lane] * x[8 * (chunks - 1) + lane]
    }
}

/// The lanes make up the dot product.
proof fn lanes_make_up_dot(w: Seq<i8>, x: Seq<i8>, chunks: int)
    requires
        chunks >= 0,
    ensures
        dot(w, x, 0, 0, 8 * chunks) == lane_dot(w, x, 0, chunks) + lane_dot(w, x, 1, chunks)
            + lane_dot(w, x, 2, chunks) + lane_dot(w, x, 3, chunks) + lane_dot(w, x, 4, chunks)
            + lane_dot(w, x, 5, chunks) + lane_dot(w, x, 6, chunks) + lane_dot(w, x, 7, chunks),
    decreases chunks,
{
    if chunks > 0 {
        lanes_make_up_dot(w, x, chunks - 1);
        reveal_with_fuel(dot, 9);
    }
}

/// The integer dot product of two groups, eight lanes at a time. A remainder of less than
/// eight elements is added one by one.
pub fn group_dot_simd(w: &[i8], x: &[i8]) -> (r: i32)
    requires
        w@.len() == x@.len(),
        fits(dot(w@, x@, 0, 0, w@.len() as int)),
    ensures
        r == dot(w@, x@, 0, 0, w@.len() as int),
{
    let chunks: usize = w.len() / LANES;
    let mut acc: [i32; 8] = [0, 0, 0, 0, 0, 0, 0, 0];
    let mut c: usize = 0;
    while c < chunks
        invariant
            c <= chunks,
            chunks == w@.len() / 8,
            w@.len() == x@.len(),
            forall|i: int|
                0 <= i < 8 ==> congruent(#[trigger] acc@[i] as int, lane_dot(w@, x@, i, c as int)),
        decreases chunks - c,
    {
        proof {
            assert(w.len() == w@.len() && x.len() == x@.len());
        }
        let products = multiply_lanes(widen_i8(w, c * LANES), widen_i8(x, c * LANES));
        let ghost before = acc@;
        acc = add_lanes(acc, products);
        proof {
            assert forall|i: int| 0 <= i < 8 implies congruent(
                #[trigger] acc@[i] as int,
                lane_dot(w@, x@, i, c + 1),
            ) by {
                assert(congruent(before[i] as int, lane_dot(w@, x@, i, c as int)));
                assert(congruent(products@[i] as int, w@[8 * c + i] * x@[8 * c + i]));
            }
        }
        c = c + 1;
    }
    let mut total: i32 = reduce_lanes(acc);
    let mut k: usize = chunks * LANES;
    proof {
        lanes_make_up_dot(w@, x@, chunks as int);
        assert(congruent(acc@[0] as int, lane_dot(w@, x@, 0, chunks as int)));
        assert(congruent(acc@[1] as int, lane_dot(w@, x@, 1, chunks as int)));
        assert(congruent(acc@[2] as int, lane_dot(w@, x@, 2, chunks as int)));
        assert(congruent(acc@[3] as int, lane_dot(w@, x@, 3, chunks as int)));
        assert(congruent(acc@[4] as int, lane_dot(w@, x@, 4, chunks as int)));
        assert(congruent(acc@[5] as int, lane_dot(w@, x@, 5, chunks as int)));
        assert(congruent(acc@[6] as int, lane_dot(w@, x@, 6, chunks as int)));
        assert(congruent(acc@[7] as int, lane_dot(w@, x@, 7, chunks as int)));
    }
    while k < w.len()
        invariant
            k <= w@.len(),
            w@.len() == x@.len(),
            congruent(total as int, dot(w@, x@, 0, 0, k as int)),
        decreases w@.len() - k,
    {
        proof {
            byte_product(w@[k as int], x@[k as int]);
        }
        total = total.wrapping_add(w[k] as i32 * x[k] as i32);
        k = k + 1;
    }
    total
}

/// The dot product with every weight offset by 128.
pub open spec fn offset_dot(w: Seq<i8>, x: Seq<i8>, n: int) -> int
    decreases n,
{
    if n <= 0 {
        0
    } else {
        offset_dot(w, x, n - 1) + (w[n - 1] + 128) * x[n - 1]
    }
}

/// Offsetting the weights adds 128 times the sum of the activations.
pub proof fn offset_correction(w: Seq<i8>, x: Seq<i8>, n: int)
    ensures
        offset_dot(w, x, n) == dot(w, x, 0, 0, n) + 128 * sum(x, n),
    decreases n,
{
    if n > 0 {
        offset_correction(w, x, n - 1);
        let a = w[n - 1] as int;
        let b = x[n - 1] as int;
        assert((a + 128) * b == a * b + 128 * b) by (nonlinear_arith);
    }
}

/// The integer dot product of two groups, with weights offset to unsigned bytes; `x_sum`
/// is the sum of the activations, by which the offset is taken back out.
pub fn group_dot_offset(w: &[i8], x: &[i8], x_sum: i32) -> (r: i32)
    requires
        w@.len() == x@.len(),
        x_sum == sum(x@, x@.len() as int),
        fits(dot(w@, x@, 0, 0, w@.len() as int)),
    ensures
        r == dot(w@, x@, 0, 0, w@.len() as int),
{
    let mut acc: i32 = 0;
    let mut k: usize = 0;
    while k < w.len()
        invariant
            k <= w@.len(),
            w@.len() == x@.len(),
            congruent(acc as int, offset_dot(w@, x@, k as int)),
        decreases w@.len() - k,
    {
        let unsigned: i32 = w[k] as i32 + 128;
        let activation: i32 = x[k] as i32;
        proof {
            assert(-32640 <= unsigned * activation <= 32385) by (nonlinear_arith)
                requires
                    0 <= unsigned <= 255,
                    -128 <= activation <= 127,
            ;
        }
        acc = acc.wrapping_add(unsigned * activation);
        k = k + 1;
    }
    proof {
        offset_correction(w@, x@, w@.len() as int);
    }
    acc.wrapping_sub(128i32.wrapping_mul(x_sum))
}

/// A dot product over two windows is the dot product at the windows' offsets.
pub proof fn dot_of_windows(w: Seq<i8>, x: Seq<i8>, wo: int, xo: int, len: int, n: int)
    requires
        0 <= wo && wo + len <= w.len(),
        0 <= xo && xo + len <= x.len(),
        n <= len,
    ensures
        dot(w.subrange(wo, wo + len), x.subrange(xo, xo + len), 0, 0, n) == dot(w, x, wo, xo, n),
    decreases n,
{
    if n > 0 {
        dot_of_windows(w, x, wo, xo, len, n - 1);
    }
}

/// The sum of each group of `group_size` activations.
pub fn group_sums(x: &[i8], group_size: usize) -> (r: Vec<i32>)
    requires
        group_size > 0,
        x@.len() % group_size as nat == 0,
        forall|g: int, n: int|
            0 <= g < x@.len() / group_size as nat && 0 <= n <= group_size ==> fits(
                #[trigger] sum(x@.subrange(g * group_size, g * group_size + group_size), n),
            ),
    ensures
        r@.len() == x@.len() / group_size as nat,
        forall|g: int|
            0 <= g < r@.len() ==> #[trigger] r@[g] == sum(
                x@.subrange(g * group_size, g * group_size + group_size),
                group_size as int,
            ),
{
    let groups: usize = x.len() / group_size;
    let mut r: Vec<i32> = Vec::new();
    let mut g: usize = 0;
    while g < groups
        invariant
            g <= groups,
            group_size > 0,
            groups == x@.len() / group_size as nat,
            r@.len() == g,
            forall|g: int, n: int|
                0 <= g < groups && 0 <= n <= group_size ==> fits(
                    #[trigger] sum(x@.subrange(g * group_size, g * group_size + group_size), n),
                ),
            forall|h: int|
                0 <= h < g ==> #[trigger] r@[h] == sum(
                    x@.subrange(h * group_size, h * group_size + group_size),
                    group_size as int,
                ),
        decreases groups - g,
    {
        proof {
            group_in_bounds(x@.len(), group_size as nat, g as int);
            assert(x.len() == x@.len());
        }
        let at: usize = g * group_size;
        r.push(group_sum(vstd::slice::slice_subrange(x, at, at + group_size)));
        g = g + 1;
    }
    r
}

/// Group `g` lies within the first `len / group_size` groups.
proof fn group_in_bounds(len: nat, group_size: nat, g: int)
    requires
        group_size > 0,
        0 <= g < len / group_size,
    ensures
        0 <= g * group_size,
        g * group_size + group_size <= len,
{
    let q = len / group_size;
    assert(q * group_size <= len) by (nonlinear_arith)
        requires
            q == len / group_size,
            group_size > 0,
    ;
    assert(g * group_size + group_size <= q * group_size) by (nonlinear_arith)
        requires
            0 <= g < q,
            group_size > 0,
    ;
    assert(0 <= g * group_size) by (nonlinear_arith)
        requires
            0 <= g,
            group_size > 0,
    ;
}

/// What an int8 matmul sums up for row `i` and group `g`: the integer dot product of the
/// group's weights and activations.
pub open spec fn row_group_dot(
    data: Seq<i8>,
    xq: Seq<i8>,
    d_in: int,
    group_size: int,
    i: int,
    g: int,
) -> int {
    dot(data, xq, i * d_in + g * group_size, g * group_size, group_size)
}

/// Whether quantized weights and a quantized activation fit together for a matmul of
/// `[d_out, d_in]`: the lengths agree, groups do not straddle rows, `x_sums` are the
/// activation's group sums, and no sum leaves the range of `i32`.
pub open spec fn q8_ready(
    data: Seq<i8>,
    group_size: usize,
    xq: Seq<i8>,
    x_sums: Seq<i32>,
    d_in: usize,
    d_out: usize,
) -> bool {
    &&& group_size > 0
    &&& d_in % group_size == 0
    &&& xq.len() == d_in
    &&& data.len() == d_out * d_in
    &&& x_sums.len() == d_in as nat / group_size as nat
    &&& forall|g: int|
        0 <= g < x_sums.len() ==> #[trigger] x_sums[g] == sum(
            xq.subrange(g * group_size, g * group_size + group_size),
            group_size as int,
        )
    &&& forall|i: int, g: int, n: int|
        0 <= i < d_out && 0 <= g < x_sums.len() && 0 <= n <= group_size ==> fits(
            #[trigger] dot(data, xq, i * d_in + g * group_size, g * group_size, n),
        )
}

/// The integer half of a full int8 matmul: for every row and group the exact dot product,
/// row by row, on the kernel selected.
///
/// The offset kernel takes group sizes that are a multiple of 32; others run on the
/// eight-lane kernel.
pub fn matmul_group_dots(
    kernel: Kernel,
    data: &[i8],
    group_size: usize,
    xq: &[i8],
    x_sums: &[i32],
    d_in: usize,
    d_out: usize,
) -> (r: Vec<i32>)
    requires
        q8_ready(data@, group_size, xq@, x_sums@, d_in, d_out),
    ensures
        ({
            let groups = d_in as nat / group_size as nat;
            &&& r@.len() == d_out * groups
            &&& forall|i: int, g: int|
                0 <= i < d_out && 0 <= g < groups ==> #[trigger] r@[i * groups + g]
                    == row_group_dot(data@, xq@, d_in as int, group_size as int, i, g)
        }),
{
    let groups: usize = d_in / group_size;
    let ghost gs = group_size as int;
    let mut r: Vec<i32> = Vec::new();
    let mut i: usize = 0;
    proof {
        assert(data.len() == data@.len() && xq.len() == xq@.len());
        assert(0 * groups == 0) by (nonlinear_arith);
    }
    while i < d_out
        invariant
            i <= d_out,
            gs == group_size,
            groups == d_in as nat / group_size as nat,
            q8_ready(data@, group_size, xq@, x_sums@, d_in, d_out),
            data@.len() <= usize::MAX,
            r@.len() == i * groups,
            forall|j: int, g: int|
                0 <= j < i && 0 <= g < groups ==> #[trigger] r@[j * groups + g] == row_group_dot(
                    data@,
                    xq@,
                    d_in as int,
                    gs,
                    j,
                    g,
                ),
        decreases d_out - i,
    {
        proof {
            assert(i * d_in + d_in <= d_out * d_in) by (nonlinear_arith)
                requires
                    0 <= i < d_out,
                    0 <= d_in,
            ;
            assert(0 <= i * d_in) by (nonlinear_arith);
            assert(0 <= i * groups) by (nonlinear_arith);
        }
        let row: usize = i * d_in;
        let mut g: usize = 0;
        while g < groups
            invariant
                i < d_out,
                row == i * d_in,
                row + d_in <= data@.len(),
                data@.len() <= usize::MAX,
                g <= groups,
                gs == group_size,
                groups == d_in as nat / group_size as nat,
                q8_ready(data@, group_size, xq@, x_sums@, d_in, d_out),
                r@.len() == i * groups + g,
                0 <= i * groups,
                forall|j: int, h: int|
                    (0 <= j < i && 0 <= h < groups) ==> #[trigger] r@[j * groups + h]
                        == row_group_dot(data@, xq@, d_in as int, gs, j, h),
                forall|h: int|
                    0 <= h < g ==> #[trigger] r@[i * groups + h] == row_group_dot(
                        data@,
                        xq@,
                        d_in as int,
                        gs,
                        i as int,
                        h,
                    ),
            decreases groups - g,
        {
            proof {
                group_in_bounds(d_in as nat, group_size as nat, g as int);
            }
            let base: usize = g * group_size;
            let wg = vstd::slice::slice_subrange(data, row + base, row + base + group_size);
            let xg = vstd::slice::slice_subrange(xq, base, base + group_size);
            proof {
                assert forall|n: int| 0 <= n <= gs implies #[trigger] dot(wg@, xg@, 0, 0, n) == dot(
                    data@,
                    xq@,
                    i * d_in + g * group_size,
                    g * group_size,
                    n,
                ) by {
                    dot_of_windows(data@, xq@, row + base, base as int, gs, n);
                }
                assert(fits(dot(wg@, xg@, 0, 0, gs)));
                assert(x_sums@[g as int] == sum(xg@, gs));
            }
            let value: i32 = match kernel {
                Kernel::Scalar => group_dot(wg, xg),
                Kernel::Simd => group_dot_simd(wg, xg),
                Kernel::Dotprod => {
                    if group_size % 32 == 0 {
                        group_dot_offset(wg, xg, x_sums[g])
                    } else {
                        group_dot_simd(wg, xg)
                    }
                },
            };
            let ghost before = r@;
            r.push(value);
            proof {
                assert forall|j: int, h: int| 0 <= j < i && 0 <= h < groups implies
                    #[trigger] r@[j * groups + h] == row_group_dot(
                    data@,
                    xq@,
                    d_in as int,
                    gs,
                    j,
                    h,
                ) by {
                    assert(0 <= j * groups + h < i * groups) by (nonlinear_arith)
                        requires
                            0 <= j < i,
                            0 <= h < groups,
                    ;
                    assert(before[j * groups + h] == row_group_dot(
                        data@,
                        xq@,
                        d_in as int,
                        gs,
                        j,
                        h,
                    ));
                }
            }
            g = g + 1;
        }
        proof {
            assert((i + 1) * groups == i * groups + groups) by (nonlinear_arith);
            assert forall|j: int, h: int| 0 <= j < i + 1 && 0 <= h < groups implies
                #[trigger] r@[j * groups + h] == row_group_dot(
                data@,
                xq@,
                d_in as int,
                gs,
                j,
                h,
            ) by {
                if j == i {
                    assert(r@[i * groups + h] == row_group_dot(
                        data@,
                        xq@,
                        d_in as int,
                        gs,
                        i as int,
                        h,
                    ));
                }
            }
        }
        i = i + 1;
    }
    r
}

/// One attention head's key and value vectors as they sit in a cache region.
///
/// `keys` and `values` hold one or more positions back to back; the head's vector at
/// position `t` starts at `t * stride + head_off`.
#[derive(Clone, Copy)]
pub struct KvHead<'a, T> {
    /// Flat key cache.
    pub keys: &'a [T],
    /// Flat value cache, addressed as the keys are.
    pub values: &'a [T],
    /// Width of one position.
    pub stride: usize,
    /// Offset of this head within a position.
    pub head_off: usize,
}

impl<'a, T> KvHead<'a, T> {
    /// Whether position `t` of a head of `head_size` elements lies in both caches.
    pub open spec fn holds(self, t: int, head_size: int) -> bool {
        &&& t * self.stride + self.head_off + head_size <= self.keys@.len()
        &&& t * self.stride + self.head_off + head_size <= self.values@.len()
    }

    /// The key at position `t`.
    pub fn key(&self, t: usize, head_size: usize) -> (r: &'a [T])
        requires
            self.holds(t as int, head_size as int),
        ensures
            r@ == self.keys@.subrange(
                t * self.stride + self.head_off,
                t * self.stride + self.head_off + head_size,
            ),
    {
        let keys = self.keys;
        proof {
            assert(keys.len() == keys@.len());
            assert(0 <= t * self.stride) by (nonlinear_arith);
        }
        let off: usize = t * self.stride + self.head_off;
        vstd::slice::slice_subrange(keys, off, off + head_size)
    }

    /// The value at position `t`.
    pub fn value(&self, t: usize, head_size: usize) -> (r: &'a [T])
        requires
            self.holds(t as int, head_size as int),
        ensures
            r@ == self.values@.subrange(
                t * self.stride + self.head_off,
                t * self.stride + self.head_off + head_size,
            ),
    {
        let values = self.values;
        proof {
            assert(values.len() == values@.len());
            assert(0 <= t * self.stride) by (nonlinear_arith);
        }
        let off: usize = t * self.stride + self.head_off;
        vstd::slice::slice_subrange(values, off, off + head_size)
    }
}

} // verus!
