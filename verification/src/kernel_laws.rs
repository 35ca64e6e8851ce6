//! What the kernels are for: on whole numbers they give the products, sums and rotations that
//! they stand for.

use vstd::prelude::*;

use crate::kernels::{
    added, attention_of, attention_scores, greatest, lane_product_sum, lane_sum, lane_sums,
    lanes_of, layernorm_of, mean_of, product_of, product_sum, rms_scale, rmsnorm_of, rotated,
    rotation_angle, shifted_exponentials, softmax_of, square_sum, squares_of, sum_of, tail_sum,
    total_of, weighted_sum,
};
use crate::order::{is_nan, total_rank};
use crate::scalar::{value, Scalar, EPSILON, NEGATIVE_ZERO, ONE, POSITION_BASE, ZERO};
use crate::whole::{
    bounded, bounded_part, equal_sums, exact, int_sum, is_whole, lane_terms, num, size, size_sum,
    small, sum_goes_on, sum_within, sums_of_sums, term_within,
};

verus! {

/// The products of the elements of `x` from `xo` on and of `y` from `yo` on.
pub open spec fn products(
    r: spec_fn(u32) -> Option<int>,
    x: Seq<u32>,
    xo: int,
    y: Seq<u32>,
    yo: int,
) -> spec_fn(int) -> int {
    |k: int| num(r, x[xo + k]) * num(r, y[yo + k])
}

/// Whether `n` elements from `at` on stand for whole numbers.
pub open spec fn whole_run(r: spec_fn(u32) -> Option<int>, x: Seq<u32>, at: int, n: int) -> bool {
    forall|k: int| at <= k < at + n ==> is_whole(r, #[trigger] x[k])
}

/// On whole numbers a sum of products is the sum of the products.
pub proof fn products_add_up<A: Fn(Scalar) -> u32>(
    a: A,
    r: spec_fn(u32) -> Option<int>,
    x: Seq<u32>,
    xo: int,
    y: Seq<u32>,
    yo: int,
    n: int,
)
    requires
        exact(a, r),
        n >= 0,
        whole_run(r, x, xo, n),
        whole_run(r, y, yo, n),
        bounded(products(r, x, xo, y, yo), n),
    ensures
        r(product_sum(a, x, xo, y, yo, n)) == Some(int_sum(products(r, x, xo, y, yo), n)),
    decreases n,
{
    if n > 0 {
        let f = products(r, x, xo, y, yo);
        bounded_part(f, n - 1, n);
        bounded_part(f, n, n);
        products_add_up(a, r, x, xo, y, yo, n - 1);
        assert(is_whole(r, x[xo + n - 1]) && is_whole(r, y[yo + n - 1]));
        assert(f(n - 1) == num(r, x[xo + n - 1]) * num(r, y[yo + n - 1]));
    }
}

/// The products that one lane of eight adds up.
pub open spec fn lane_products(
    r: spec_fn(u32) -> Option<int>,
    x: Seq<u32>,
    xo: int,
    y: Seq<u32>,
    yo: int,
    lane: int,
) -> spec_fn(int) -> int {
    |c: int| num(r, x[xo + c * 8 + lane]) * num(r, y[yo + c * 8 + lane])
}

/// The sums of the lanes over `chunks` chunks.
spec fn chunk_sums(
    r: spec_fn(u32) -> Option<int>,
    x: Seq<u32>,
    xo: int,
    y: Seq<u32>,
    yo: int,
    chunks: int,
) -> spec_fn(int) -> int {
    |lane: int| int_sum(lane_products(r, x, xo, y, yo, lane), chunks)
}

/// A chunk adds one product to each lane.
proof fn lane_goes_on(
    r: spec_fn(u32) -> Option<int>,
    x: Seq<u32>,
    xo: int,
    y: Seq<u32>,
    yo: int,
    lane: int,
    c: int,
)
    requires
        0 <= c,
    ensures
        int_sum(lane_products(r, x, xo, y, yo, lane), c + 1) == int_sum(
            lane_products(r, x, xo, y, yo, lane),
            c,
        ) + products(r, x, xo, y, yo)(c * 8 + lane),
        size_sum(lane_products(r, x, xo, y, yo, lane), c + 1) == size_sum(
            lane_products(r, x, xo, y, yo, lane),
            c,
        ) + size(products(r, x, xo, y, yo)(c * 8 + lane)),
{
    assert(xo + (c * 8 + lane) == xo + c * 8 + lane);
    assert(yo + (c * 8 + lane) == yo + c * 8 + lane);
}

/// Adding up lane by lane gives what adding up in order gives, and exceeds it in magnitude
/// nowhere.
proof fn lanes_regroup(
    r: spec_fn(u32) -> Option<int>,
    x: Seq<u32>,
    xo: int,
    y: Seq<u32>,
    yo: int,
    chunks: int,
)
    requires
        chunks >= 0,
    ensures
        int_sum(chunk_sums(r, x, xo, y, yo, chunks), 8) == int_sum(
            products(r, x, xo, y, yo),
            chunks * 8,
        ),
        size_sum(chunk_sums(r, x, xo, y, yo, chunks), 8) <= size_sum(
            products(r, x, xo, y, yo),
            chunks * 8,
        ),
        forall|lane: int|
            0 <= lane < 8 ==> size_sum(#[trigger] lane_products(r, x, xo, y, yo, lane), chunks)
                <= size_sum(products(r, x, xo, y, yo), chunks * 8),
    decreases chunks,
{
    let p = products(r, x, xo, y, yo);
    let now = chunk_sums(r, x, xo, y, yo, chunks);
    if chunks > 0 {
        let c = chunks - 1;
        lanes_regroup(r, x, xo, y, yo, c);
        let before = chunk_sums(r, x, xo, y, yo, c);
        let new = |lane: int| p(c * 8 + lane);
        assert forall|lane: int| 0 <= lane < 8 implies #[trigger] now(lane) == before(lane) + new(
            lane,
        ) by {
            lane_goes_on(r, x, xo, y, yo, lane, c);
        }
        sums_of_sums(now, before, new, 8);
        sum_goes_on(p, new, c * 8, 8);
        assert(chunks * 8 == c * 8 + 8);
        assert forall|lane: int| 0 <= lane < 8 implies size_sum(
            #[trigger] lane_products(r, x, xo, y, yo, lane),
            chunks,
        ) <= size_sum(p, chunks * 8) by {
            lane_goes_on(r, x, xo, y, yo, lane, c);
            term_within(new, lane, 8);
        }
    } else {
        let none = |lane: int| 0int;
        assert forall|lane: int| 0 <= lane < 8 implies #[trigger] now(lane) == none(lane) by {}
        equal_sums(now, none, 8);
        reveal_with_fuel(int_sum, 9);
        reveal_with_fuel(size_sum, 9);
    }
}

/// On whole numbers a lane adds up its products.
proof fn lane_adds_up<A: Fn(Scalar) -> u32>(
    a: A,
    r: spec_fn(u32) -> Option<int>,
    x: Seq<u32>,
    xo: int,
    y: Seq<u32>,
    yo: int,
    lane: int,
    n: int,
)
    requires
        exact(a, r),
        n >= 0,
        0 <= lane < 8,
        whole_run(r, x, xo, n * 8),
        whole_run(r, y, yo, n * 8),
        bounded(lane_products(r, x, xo, y, yo, lane), n),
    ensures
        r(lane_sum(a, x, xo, y, yo, lane, n)) == Some(
            int_sum(lane_products(r, x, xo, y, yo, lane), n),
        ),
    decreases n,
{
    if n > 0 {
        let f = lane_products(r, x, xo, y, yo, lane);
        bounded_part(f, n - 1, n);
        bounded_part(f, n, n);
        lane_adds_up(a, r, x, xo, y, yo, lane, n - 1);
        let k = (n - 1) * 8 + lane;
        assert(is_whole(r, x[xo + k]) && is_whole(r, y[yo + k]));
        assert(xo + (n - 1) * 8 + lane == xo + k && yo + (n - 1) * 8 + lane == yo + k);
        assert(f(n - 1) == num(r, x[xo + k]) * num(r, y[yo + k]));
    }
}

/// On whole numbers a running sum goes on by the products that follow.
pub proof fn the_tail_adds_up<A: Fn(Scalar) -> u32>(
    a: A,
    r: spec_fn(u32) -> Option<int>,
    start: u32,
    x: Seq<u32>,
    xo: int,
    y: Seq<u32>,
    yo: int,
    from: int,
    n: int,
)
    requires
        exact(a, r),
        0 <= from <= n,
        whole_run(r, x, xo, n),
        whole_run(r, y, yo, n),
        bounded(products(r, x, xo, y, yo), n),
        is_whole(r, start),
        size(num(r, start)) <= size_sum(products(r, x, xo, y, yo), from),
    ensures
        r(tail_sum(a, start, x, xo, y, yo, from, n)) == Some(
            num(r, start) + int_sum(products(r, x, xo, y, yo), n) - int_sum(
                products(r, x, xo, y, yo),
                from,
            ),
        ),
        size(num(r, tail_sum(a, start, x, xo, y, yo, from, n))) <= size_sum(
            products(r, x, xo, y, yo),
            n,
        ),
    decreases n - from,
{
    if n > from {
        let f = products(r, x, xo, y, yo);
        bounded_part(f, n - 1, n);
        bounded_part(f, n, n);
        the_tail_adds_up(a, r, start, x, xo, y, yo, from, n - 1);
        assert(is_whole(r, x[xo + n - 1]) && is_whole(r, y[yo + n - 1]));
        assert(f(n - 1) == num(r, x[xo + n - 1]) * num(r, y[yo + n - 1]));
    }
}

/// On whole numbers the eight-lane sum of products is the sum of the products too.
pub proof fn lane_products_add_up<A: Fn(Scalar) -> u32>(
    a: A,
    r: spec_fn(u32) -> Option<int>,
    x: Seq<u32>,
    xo: int,
    y: Seq<u32>,
    yo: int,
    n: int,
)
    requires
        exact(a, r),
        n >= 0,
        whole_run(r, x, xo, n),
        whole_run(r, y, yo, n),
        bounded(products(r, x, xo, y, yo), n),
    ensures
        r(lane_product_sum(a, x, xo, y, yo, n)) == Some(int_sum(products(r, x, xo, y, yo), n)),
{
    let p = products(r, x, xo, y, yo);
    let chunks = n / 8;
    bounded_part(p, chunks * 8, n);
    lanes_regroup(r, x, xo, y, yo, chunks);
    let s = lane_sums(a, x, xo, y, yo, chunks);
    let l = [s[0], s[1], s[2], s[3], s[4], s[5], s[6], s[7]];
    assert(l@ =~= s);
    let lanes = lanes_of(s);
    assert(lanes@ == s);
    let g = chunk_sums(r, x, xo, y, yo, chunks);
    let t = lane_terms(r, lanes);
    assert forall|k: int| 0 <= k < 8 implies is_whole(r, #[trigger] lanes@[k]) && t(k) == g(k) by {
        let f = lane_products(r, x, xo, y, yo, k);
        assert(bounded(f, chunks));
        lane_adds_up(a, r, x, xo, y, yo, k, chunks);
    }
    assert forall|k: int| 0 <= k < 8 implies #[trigger] t(k) == g(k) by {
        assert(is_whole(r, lanes@[k]));
    }
    equal_sums(t, g, 8);
    sum_within(t, 8);
    let start = value(a, Scalar::SumLanes(lanes));
    assert(r(start) == Some(int_sum(t, 8)));
    the_tail_adds_up(a, r, start, x, xo, y, yo, chunks * 8, n);
}

/// A matrix-vector product on whole numbers: element `i` is the sum over `j` of the element in
/// row `i` and column `j` times `x[j]`.
pub proof fn matmul_is_the_product<A: Fn(Scalar) -> u32>(
    a: A,
    r: spec_fn(u32) -> Option<int>,
    w: Seq<u32>,
    x: Seq<u32>,
    d_in: nat,
    d_out: nat,
    i: int,
)
    requires
        exact(a, r),
        0 <= i < d_out,
        whole_run(r, w, i * d_in, d_in as int),
        whole_run(r, x, 0, d_in as int),
        bounded(|j: int| num(r, w[i * d_in + j]) * num(r, x[j]), d_in as int),
    ensures
        product_of(a, w, x, d_in as int, d_out).len() == d_out,
        r(product_of(a, w, x, d_in as int, d_out)[i]) == Some(
            int_sum(|j: int| num(r, w[i * d_in + j]) * num(r, x[j]), d_in as int),
        ),
{
    let f = |j: int| num(r, w[i * d_in + j]) * num(r, x[j]);
    let g = products(r, w, i * d_in, x, 0);
    assert forall|j: int| 0 <= j < d_in implies #[trigger] f(j) == g(j) by {}
    equal_sums(f, g, d_in as int);
    products_add_up(a, r, w, i * d_in, x, 0, d_in as int);
}

/// On whole numbers a sum is the sum, where it starts from zero and where from negative zero.
pub proof fn sums_add_up<A: Fn(Scalar) -> u32>(
    a: A,
    r: spec_fn(u32) -> Option<int>,
    x: Seq<u32>,
    n: int,
)
    requires
        exact(a, r),
        n >= 0,
        whole_run(r, x, 0, n),
        bounded(|k: int| num(r, x[k]), n),
    ensures
        r(sum_of(a, x, n)) == Some(int_sum(|k: int| num(r, x[k]), n)),
        r(total_of(a, x, n)) == Some(int_sum(|k: int| num(r, x[k]), n)),
    decreases n,
{
    if n > 0 {
        let f = |k: int| num(r, x[k]);
        bounded_part(f, n - 1, n);
        bounded_part(f, n, n);
        sums_add_up(a, r, x, n - 1);
        assert(is_whole(r, x[n - 1]));
    }
}

/// On whole numbers the squares add up to the sum of the squares.
pub proof fn squares_add_up<A: Fn(Scalar) -> u32>(
    a: A,
    r: spec_fn(u32) -> Option<int>,
    x: Seq<u32>,
    n: int,
)
    requires
        exact(a, r),
        n >= 0,
        whole_run(r, x, 0, n),
        bounded(|k: int| num(r, x[k]) * num(r, x[k]), n),
    ensures
        r(squares_of(a, x, n)) == Some(int_sum(|k: int| num(r, x[k]) * num(r, x[k]), n)),
    decreases n,
{
    if n > 0 {
        let f = |k: int| num(r, x[k]) * num(r, x[k]);
        bounded_part(f, n - 1, n);
        bounded_part(f, n, n);
        squares_add_up(a, r, x, n - 1);
        assert(is_whole(r, x[n - 1]));
        assert(f(n - 1) == num(r, x[n - 1]) * num(r, x[n - 1]));
    }
}

/// On whole numbers a weighted sum adds up column `i` of the rows, each times its weight.
pub proof fn weighted_rows_add_up<A: Fn(Scalar) -> u32>(
    a: A,
    r: spec_fn(u32) -> Option<int>,
    weights: Seq<u32>,
    values: Seq<Seq<u32>>,
    i: int,
    n: int,
)
    requires
        exact(a, r),
        n >= 0,
        whole_run(r, weights, 0, n),
        forall|t: int| 0 <= t < n ==> is_whole(r, (#[trigger] values[t])[i]),
        bounded(|t: int| num(r, weights[t]) * num(r, values[t][i]), n),
    ensures
        r(weighted_sum(a, weights, values, i, n)) == Some(
            int_sum(|t: int| num(r, weights[t]) * num(r, values[t][i]), n),
        ),
    decreases n,
{
    if n > 0 {
        let f = |t: int| num(r, weights[t]) * num(r, values[t][i]);
        bounded_part(f, n - 1, n);
        bounded_part(f, n, n);
        weighted_rows_add_up(a, r, weights, values, i, n - 1);
        assert(is_whole(r, weights[n - 1]) && is_whole(r, values[n - 1][i]));
        assert(f(n - 1) == num(r, weights[n - 1]) * num(r, values[n - 1][i]));
    }
}

/// On whole numbers the score of a key is its product with the query, times the scale.
pub proof fn scores_are_products<A: Fn(Scalar) -> u32>(
    a: A,
    r: spec_fn(u32) -> Option<int>,
    q: Seq<u32>,
    keys: Seq<Seq<u32>>,
    scale: u32,
    t: int,
)
    requires
        exact(a, r),
        0 <= t < keys.len(),
        whole_run(r, q, 0, q.len() as int),
        whole_run(r, keys[t], 0, q.len() as int),
        is_whole(r, scale),
        bounded(|k: int| num(r, q[k]) * num(r, keys[t][k]), q.len() as int),
        small(
            int_sum(|k: int| num(r, q[k]) * num(r, keys[t][k]), q.len() as int) * num(r, scale),
        ),
    ensures
        attention_scores(a, q, keys, scale).len() == keys.len(),
        r(attention_scores(a, q, keys, scale)[t]) == Some(
            int_sum(|k: int| num(r, q[k]) * num(r, keys[t][k]), q.len() as int) * num(r, scale),
        ),
{
    let f = |k: int| num(r, q[k]) * num(r, keys[t][k]);
    let g = products(r, q, 0, keys[t], 0);
    assert forall|k: int| 0 <= k < q.len() implies #[trigger] f(k) == g(k) by {}
    equal_sums(f, g, q.len() as int);
    products_add_up(a, r, q, 0, keys[t], 0, q.len() as int);
}

/// On whole numbers adding two vectors adds their elements.
pub proof fn vectors_add<A: Fn(Scalar) -> u32>(
    a: A,
    r: spec_fn(u32) -> Option<int>,
    x: Seq<u32>,
    y: Seq<u32>,
    i: int,
)
    requires
        exact(a, r),
        0 <= i < x.len(),
        is_whole(r, x[i]),
        is_whole(r, y[i]),
        small(num(r, x[i]) + num(r, y[i])),
    ensures
        r(added(a, x, y)[i]) == Some(num(r, x[i]) + num(r, y[i])),
{
}

/// A rotary embedding turns each pair of neighbours by its angle: with whole sine and cosine the
/// pair `(x, y)` becomes `(x * cos - y * sin, x * sin + y * cos)`.
pub proof fn pairs_turn<A: Fn(Scalar) -> u32>(
    a: A,
    r: spec_fn(u32) -> Option<int>,
    v: Seq<u32>,
    pos: usize,
    head_size: usize,
    p: int,
    cos: int,
    sin: int,
)
    requires
        exact(a, r),
        0 <= p,
        2 * p + 1 < v.len(),
        is_whole(r, v[2 * p]),
        is_whole(r, v[2 * p + 1]),
        r(value(a, Scalar::Cos(rotation_angle(a, pos, head_size, 2 * p)))) == Some(cos),
        r(value(a, Scalar::Sin(rotation_angle(a, pos, head_size, 2 * p)))) == Some(sin),
        size(num(r, v[2 * p]) * cos) + size(num(r, v[2 * p + 1]) * sin) <= 0x100_0000,
        size(num(r, v[2 * p]) * sin) + size(num(r, v[2 * p + 1]) * cos) <= 0x100_0000,
    ensures
        r(rotated(a, v, pos, head_size)[2 * p]) == Some(
            num(r, v[2 * p]) * cos - num(r, v[2 * p + 1]) * sin,
        ),
        r(rotated(a, v, pos, head_size)[2 * p + 1]) == Some(
            num(r, v[2 * p]) * sin + num(r, v[2 * p + 1]) * cos,
        ),
{
    assert((2 * p) % 2 == 0 && (2 * p + 1) % 2 == 1);
    assert(2 * p + 1 - 1 == 2 * p);
}

/// What the maximum of a softmax is: one of the elements, and none is above it.
pub open spec fn is_maximum(x: Seq<u32>, m: u32) -> bool {
    &&& x.contains(m)
    &&& forall|i: int| 0 <= i < x.len() ==> total_rank(#[trigger] x[i]) <= total_rank(m)
}

/// There is one maximum.
pub proof fn the_maximum_is_unique(x: Seq<u32>, m: u32, n: u32)
    requires
        is_maximum(x, m),
        is_maximum(x, n),
    ensures
        m == n,
{
    let i = x.index_of(m);
    let j = x.index_of(n);
    assert(x[i] == m && x[j] == n);
}

/// A softmax gives each element its share: the exponential of its distance to the maximum, over
/// the sum of all these exponentials.
pub proof fn softmax_gives_shares<A: Fn(Scalar) -> u32>(
    a: A,
    x: Seq<u32>,
    m: u32,
    e: Seq<u32>,
    i: int,
)
    requires
        is_maximum(x, m),
        e.len() == x.len(),
        forall|k: int|
            0 <= k < x.len() ==> #[trigger] e[k] == value(
                a,
                Scalar::Exp(value(a, Scalar::Sub(x[k], m))),
            ),
        0 <= i < x.len(),
    ensures
        softmax_of(a, x).len() == x.len(),
        softmax_of(a, x)[i] == value(
            a,
            Scalar::Div(e[i], sum_of(a, e, x.len() as int)),
        ),
{
    let n = x.len() as int;
    greatest_is_maximum(x, n);
    assert(x.take(n) =~= x);
    the_maximum_is_unique(x, m, greatest(x, n));
    assert(shifted_exponentials(a, x) =~= e);
}

/// The running maximum is the maximum of what was seen.
pub proof fn greatest_is_maximum(x: Seq<u32>, n: int)
    requires
        0 < n <= x.len(),
    ensures
        is_maximum(x.take(n), greatest(x, n)),
    decreases n,
{
    let s = x.take(n);
    if n > 1 {
        greatest_is_maximum(x, n - 1);
        let before = x.take(n - 1);
        let m = greatest(x, n - 1);
        assert forall|i: int| 0 <= i < n implies total_rank(#[trigger] s[i]) <= total_rank(
            greatest(x, n),
        ) by {
            if i < n - 1 {
                assert(before[i] == s[i]);
            }
        }
        let j = before.index_of(m);
        assert(before[j] == m && s[j] == m);
        assert(s[n - 1] == x[n - 1]);
    } else {
        assert(s[0] == x[0]);
    }
}

/// Whether the exponential function is one at zero.
pub open spec fn exponential_at_zero<A: Fn(Scalar) -> u32>(
    a: A,
    r: spec_fn(u32) -> Option<int>,
) -> bool {
    forall|x: u32| r(x) == Some(0int) ==> #[trigger] value(a, Scalar::Exp(x)) == ONE
}

/// Attention picks out: where one key scores so far above the others that nothing is left of the
/// exponentials of the distances, the output is the value that belongs to that key.
pub proof fn attention_picks_the_value<A: Fn(Scalar) -> u32>(
    a: A,
    r: spec_fn(u32) -> Option<int>,
    q: Seq<u32>,
    keys: Seq<Seq<u32>>,
    values: Seq<Seq<u32>>,
    scale: u32,
    best: int,
    i: int,
)
    requires
        exact(a, r),
        exponential_at_zero(a, r),
        0 <= best < keys.len(),
        values.len() == keys.len(),
        0 <= i < q.len(),
        ({
            let s = attention_scores(a, q, keys, scale);
            &&& is_whole(r, s[best])
            &&& forall|t: int|
                0 <= t < keys.len() && t != best ==> total_rank(#[trigger] s[t]) < total_rank(
                    s[best],
                ) && value(a, Scalar::Exp(value(a, Scalar::Sub(s[t], s[best])))) == ZERO
        }),
        forall|t: int|
            0 <= t < keys.len() ==> is_whole(r, (#[trigger] values[t])[i]) && small(
                num(r, values[t][i]),
            ),
    ensures
        attention_of(a, q, keys, values, scale).len() == q.len(),
        r(attention_of(a, q, keys, values, scale)[i]) == Some(num(r, values[best][i])),
{
    let n = keys.len() as int;
    let s = attention_scores(a, q, keys, scale);
    let m = s[best];
    assert(is_maximum(s, m));
    let e = Seq::new(
        keys.len(),
        |t: int| value(a, Scalar::Exp(value(a, Scalar::Sub(s[t], m)))),
    );
    let w = softmax_of(a, s);
    assert(r(value(a, Scalar::Sub(m, m))) == Some(0int));
    let marks = |t: int| if t == best { 1int } else { 0int };
    one_mark(best, n);
    assert forall|t: int| 0 <= t < n implies r(#[trigger] e[t]) == Some(marks(t)) by {
        assert(s[t] == s[t]);
    }
    let f = |k: int| num(r, e[k]);
    assert forall|k: int| 0 <= k < n implies #[trigger] f(k) == marks(k) by {
        assert(r(e[k]) == Some(marks(k)));
    }
    equal_sums(f, marks, n);
    assert(whole_run(r, e, 0, n)) by {
        assert forall|k: int| 0 <= k < 0 + n implies is_whole(r, #[trigger] e[k]) by {
            assert(r(e[k]) == Some(marks(k)));
        }
    }
    sums_add_up(a, r, e, n);
    let total = sum_of(a, e, n);
    assert(r(total) == Some(1int));
    assert forall|t: int| 0 <= t < n implies r(#[trigger] w[t]) == Some(marks(t)) by {
        softmax_gives_shares(a, s, m, e, t);
        assert(r(e[t]) == Some(marks(t)));
        assert(small(marks(t)));
        assert(num(r, e[t]) == num(r, total) * marks(t));
    }
    let g = |t: int| num(r, w[t]) * num(r, values[t][i]);
    let h = |t: int| if t == best { num(r, values[best][i]) } else { 0int };
    assert forall|t: int| 0 <= t < n implies #[trigger] g(t) == h(t) by {
        assert(r(w[t]) == Some(marks(t)));
        let (u, v) = (num(r, w[t]), num(r, values[t][i]));
        assert(u == marks(t));
        if t == best {
            assert(u * v == v) by (nonlinear_arith)
                requires
                    u == 1,
            ;
        } else {
            assert(u * v == 0) by (nonlinear_arith)
                requires
                    u == 0,
            ;
        }
    }
    equal_sums(g, h, n);
    one_term(best, num(r, values[best][i]), n);
    assert(small(num(r, values[best][i])));
    assert(whole_run(r, w, 0, n)) by {
        assert forall|k: int| 0 <= k < 0 + n implies is_whole(r, #[trigger] w[k]) by {
            assert(r(w[k]) == Some(marks(k)));
        }
    }
    assert forall|t: int| 0 <= t < n implies is_whole(r, (#[trigger] values[t])[i]) by {}
    weighted_rows_add_up(a, r, w, values, i, n);
}

/// A sum with one term that is not zero.
proof fn one_term(best: int, v: int, n: int)
    requires
        n >= 0,
    ensures
        int_sum(|t: int| if t == best { v } else { 0int }, n) == if 0 <= best < n {
            v
        } else {
            0
        },
        size_sum(|t: int| if t == best { v } else { 0int }, n) == if 0 <= best < n {
            size(v)
        } else {
            0
        },
    decreases n,
{
    if n > 0 {
        one_term(best, v, n - 1);
    }
}

proof fn one_mark(best: int, n: int)
    requires
        n >= 0,
        0 <= best < n,
    ensures
        int_sum(|t: int| if t == best { 1int } else { 0int }, n) == 1,
        size_sum(|t: int| if t == best { 1int } else { 0int }, n) == 1,
{
    one_term(best, 1, n);
    let f = |t: int| if t == best { 1int } else { 0int };
    let v = 1int;
    let g = |t: int| if t == best { v } else { 0int };
    assert(f =~= g);
}

/// An RMS norm divides by the root of the mean square, which has a hundred-thousandth added, and
/// multiplies by the gain: on whole numbers whose squares have a whole mean `m`, every element is
/// multiplied by one over the root of `m` and the addend, and then by its gain.
pub proof fn rmsnorm_divides_by_the_root_mean_square<A: Fn(Scalar) -> u32>(
    a: A,
    r: spec_fn(u32) -> Option<int>,
    x: Seq<u32>,
    w: Seq<u32>,
    m: int,
)
    requires
        exact(a, r),
        0 < x.len() <= 0x10000,
        whole_run(r, x, 0, x.len() as int),
        bounded(|k: int| num(r, x[k]) * num(r, x[k]), x.len() as int),
        int_sum(|k: int| num(r, x[k]) * num(r, x[k]), x.len() as int) == x.len() * m,
        small(m),
    ensures
        rmsnorm_of(a, x, w).len() == x.len(),
        exists|mean: u32|
            r(mean) == Some(m) && #[trigger] is_rms_normed(a, x, mean, w, rmsnorm_of(a, x, w)),
{
    let n = x.len() as int;
    squares_add_up(a, r, x, n);
    let squares = squares_of(a, x, n);
    let count = value(a, Scalar::Count(x.len() as usize));
    assert(r(count) == Some(n));
    let mean = value(a, Scalar::Div(squares, count));
    assert(r(mean) == Some(m));
    let root = value(a, Scalar::Sqrt(value(a, Scalar::Add(mean, EPSILON))));
    assert(rms_scale(a, x) == value(a, Scalar::Div(ONE, root)));
    assert(is_rms_normed(a, x, mean, w, rmsnorm_of(a, x, w)));
}

/// Whether every element of `out` is one of `x`, over the root of the mean square and a
/// hundred-thousandth, times its gain.
pub open spec fn is_rms_normed<A: Fn(Scalar) -> u32>(
    a: A,
    x: Seq<u32>,
    mean: u32,
    w: Seq<u32>,
    out: Seq<u32>,
) -> bool {
    let root = value(a, Scalar::Sqrt(value(a, Scalar::Add(mean, EPSILON))));
    let inverse = value(a, Scalar::Div(ONE, root));
    &&& out.len() == x.len()
    &&& forall|i: int|
        0 <= i < x.len() ==> #[trigger] out[i] == value(
            a,
            Scalar::Mul(value(a, Scalar::Mul(x[i], inverse)), w[i]),
        )
}

/// On whole numbers the squared distances to the mean add up to the sum of the squares.
proof fn distances_add_up<A: Fn(Scalar) -> u32>(
    a: A,
    r: spec_fn(u32) -> Option<int>,
    x: Seq<u32>,
    mean: u32,
    n: int,
)
    requires
        exact(a, r),
        n >= 0,
        whole_run(r, x, 0, n),
        is_whole(r, mean),
        forall|k: int| 0 <= k < n ==> small(num(r, #[trigger] x[k]) - num(r, mean)),
        bounded(
            |k: int| (num(r, x[k]) - num(r, mean)) * (num(r, x[k]) - num(r, mean)),
            n,
        ),
    ensures
        r(square_sum(a, x, mean, n)) == Some(
            int_sum(|k: int| (num(r, x[k]) - num(r, mean)) * (num(r, x[k]) - num(r, mean)), n),
        ),
    decreases n,
{
    if n > 0 {
        let f = |k: int| (num(r, x[k]) - num(r, mean)) * (num(r, x[k]) - num(r, mean));
        bounded_part(f, n - 1, n);
        bounded_part(f, n, n);
        distances_add_up(a, r, x, mean, n - 1);
        assert(is_whole(r, x[n - 1]));
        assert(small(num(r, x[n - 1]) - num(r, mean)));
        assert(f(n - 1) == (num(r, x[n - 1]) - num(r, mean)) * (num(r, x[n - 1]) - num(r, mean)));
    }
}

/// A layer norm takes the mean off, divides by the root of the variance, which has a
/// hundred-thousandth added, multiplies by the gain and adds the offset: on whole numbers with a
/// whole mean `m` and a whole mean square distance `v` to it.
pub proof fn layernorm_centers_and_scales<A: Fn(Scalar) -> u32>(
    a: A,
    r: spec_fn(u32) -> Option<int>,
    x: Seq<u32>,
    w: Seq<u32>,
    b: Seq<u32>,
    m: int,
    v: int,
)
    requires
        exact(a, r),
        0 < x.len() <= 0x10000,
        whole_run(r, x, 0, x.len() as int),
        bounded(|k: int| num(r, x[k]), x.len() as int),
        int_sum(|k: int| num(r, x[k]), x.len() as int) == x.len() * m,
        small(m),
        forall|k: int| 0 <= k < x.len() ==> small(num(r, #[trigger] x[k]) - m),
        bounded(|k: int| (num(r, x[k]) - m) * (num(r, x[k]) - m), x.len() as int),
        int_sum(|k: int| (num(r, x[k]) - m) * (num(r, x[k]) - m), x.len() as int) == x.len() * v,
        small(v),
    ensures
        layernorm_of(a, x, w, b).len() == x.len(),
        exists|mean: u32, variance: u32|
            r(mean) == Some(m) && r(variance) == Some(v) && #[trigger] is_normed(
                a,
                x,
                mean,
                variance,
                w,
                b,
                layernorm_of(a, x, w, b),
            ),
{
    let n = x.len() as int;
    sums_add_up(a, r, x, n);
    let count = value(a, Scalar::Count(x.len() as usize));
    assert(r(count) == Some(n));
    let mean = value(a, Scalar::Div(total_of(a, x, n), count));
    assert(r(mean) == Some(m));
    distances_add_up(a, r, x, mean, n);
    let f = |k: int| (num(r, x[k]) - m) * (num(r, x[k]) - m);
    let g = |k: int| (num(r, x[k]) - num(r, mean)) * (num(r, x[k]) - num(r, mean));
    assert(f =~= g);
    let variance = value(a, Scalar::Div(square_sum(a, x, mean, n), count));
    assert(r(variance) == Some(v));
    assert(mean_of(a, x) == mean);
    assert(is_normed(a, x, mean, variance, w, b, layernorm_of(a, x, w, b)));
}

/// Whether every element of `out` is normed with a mean and a variance.
pub open spec fn is_normed<A: Fn(Scalar) -> u32>(
    a: A,
    x: Seq<u32>,
    mean: u32,
    variance: u32,
    w: Seq<u32>,
    b: Seq<u32>,
    out: Seq<u32>,
) -> bool {
    &&& out.len() == x.len()
    &&& forall|i: int|
        0 <= i < x.len() ==> #[trigger] out[i] == normed_element(
            a,
            x[i],
            mean,
            variance,
            w[i],
            b[i],
        )
}

/// `x` less the mean, over the root of the variance and a hundred-thousandth, times the gain, plus
/// the offset.
pub open spec fn normed_element<A: Fn(Scalar) -> u32>(
    a: A,
    x: u32,
    mean: u32,
    variance: u32,
    gain: u32,
    offset: u32,
) -> u32 {
    let deviation = value(a, Scalar::Sqrt(value(a, Scalar::Add(variance, EPSILON))));
    let centered = value(a, Scalar::Sub(x, mean));
    let scaled = value(a, Scalar::Mul(centered, value(a, Scalar::Div(ONE, deviation))));
    value(a, Scalar::Add(value(a, Scalar::Mul(scaled, gain)), offset))
}

/// The angle of a pair is the position over ten thousand to the power of the pair's place in its
/// head over the head size: every head turns alike.
pub proof fn heads_turn_alike<A: Fn(Scalar) -> u32>(
    a: A,
    pos: usize,
    head_size: usize,
    h: int,
    i: int,
)
    requires
        0 <= h,
        0 <= i < head_size,
    ensures
        rotation_angle(a, pos, head_size, h * head_size + i) == value(
            a,
            Scalar::Mul(
                value(a, Scalar::Count(pos)),
                value(
                    a,
                    Scalar::Div(
                        ONE,
                        value(
                            a,
                            Scalar::Pow(
                                POSITION_BASE,
                                value(
                                    a,
                                    Scalar::Div(
                                        value(a, Scalar::Count(i as usize)),
                                        value(a, Scalar::Count(head_size)),
                                    ),
                                ),
                            ),
                        ),
                    ),
                ),
            ),
        ),
{
    vstd::arithmetic::div_mod::lemma_fundamental_div_mod_converse(
        h * head_size + i,
        head_size as int,
        h,
        i,
    );
    assert(h * head_size == head_size * h) by (nonlinear_arith);
}

/// At the first position nothing is turned, where the sine of zero is zero and its cosine one.
pub proof fn the_first_position_is_not_turned<A: Fn(Scalar) -> u32>(
    a: A,
    r: spec_fn(u32) -> Option<int>,
    v: Seq<u32>,
    head_size: usize,
    p: int,
)
    requires
        exact(a, r),
        forall|x: u32| r(x) == Some(0int) ==> r(#[trigger] value(a, Scalar::Sin(x))) == Some(0int),
        forall|x: u32| r(x) == Some(0int) ==> r(#[trigger] value(a, Scalar::Cos(x))) == Some(1int),
        0 <= p,
        2 * p + 1 < v.len(),
        is_whole(r, v[2 * p]),
        is_whole(r, v[2 * p + 1]),
        small(num(r, v[2 * p])),
        small(num(r, v[2 * p + 1])),
        r(rotation_angle(a, 0, head_size, 2 * p)) == Some(0int),
    ensures
        r(rotated(a, v, 0, head_size)[2 * p]) == r(v[2 * p]),
        r(rotated(a, v, 0, head_size)[2 * p + 1]) == r(v[2 * p + 1]),
{
    pairs_turn(a, r, v, 0, head_size, p, 1, 0);
}

/// Sums go from left to right: one more term is added behind what the terms before it add up to.
pub proof fn sums_go_from_left_to_right<A: Fn(Scalar) -> u32>(
    a: A,
    x: Seq<u32>,
    xo: int,
    y: Seq<u32>,
    yo: int,
    rows: Seq<Seq<u32>>,
    i: int,
    m: u32,
    n: int,
)
    requires
        0 <= n,
    ensures
        product_sum(a, x, xo, y, yo, n + 1) == value(
            a,
            Scalar::Add(
                product_sum(a, x, xo, y, yo, n),
                value(a, Scalar::Mul(x[xo + n], y[yo + n])),
            ),
        ),
        sum_of(a, x, n + 1) == value(a, Scalar::Add(sum_of(a, x, n), x[n])),
        total_of(a, x, n + 1) == value(a, Scalar::Add(total_of(a, x, n), x[n])),
        squares_of(a, x, n + 1) == value(
            a,
            Scalar::Add(squares_of(a, x, n), value(a, Scalar::Mul(x[n], x[n]))),
        ),
        square_sum(a, x, m, n + 1) == value(
            a,
            Scalar::Add(
                square_sum(a, x, m, n),
                value(
                    a,
                    Scalar::Mul(value(a, Scalar::Sub(x[n], m)), value(a, Scalar::Sub(x[n], m))),
                ),
            ),
        ),
        weighted_sum(a, x, rows, i, n + 1) == value(
            a,
            Scalar::Add(
                weighted_sum(a, x, rows, i, n),
                value(a, Scalar::Mul(x[n], rows[n][i])),
            ),
        ),
{
}

/// A total of one number is that number, bit for bit, where adding a number to negative zero keeps it;
/// sums of products, and of what is not a total, begin at zero.
pub proof fn totals_begin_at_negative_zero<A: Fn(Scalar) -> u32>(
    a: A,
    x: Seq<u32>,
    y: Seq<u32>,
    m: u32,
)
    requires
        x.len() > 0,
        forall|v: u32| !is_nan(v) ==> #[trigger] value(a, Scalar::Add(NEGATIVE_ZERO, v)) == v,
    ensures
        !is_nan(x[0]) ==> total_of(a, x, 1) == x[0],
        ({
            let square = value(a, Scalar::Mul(x[0], x[0]));
            !is_nan(square) ==> squares_of(a, x, 1) == square
        }),
        ({
            let distance = value(a, Scalar::Sub(x[0], m));
            let square = value(a, Scalar::Mul(distance, distance));
            !is_nan(square) ==> square_sum(a, x, m, 1) == square
        }),
        product_sum(a, x, 0, y, 0, 0) == ZERO,
        sum_of(a, x, 0) == ZERO,
{
    assert(total_of(a, x, 0) == NEGATIVE_ZERO);
    assert(squares_of(a, x, 0) == NEGATIVE_ZERO);
    assert(square_sum(a, x, m, 0) == NEGATIVE_ZERO);
}

/// The eight-lane product adds every eighth product to one lane, from left to right, adds the lanes
/// up, and adds what is left over one by one.
pub proof fn lanes_take_every_eighth<A: Fn(Scalar) -> u32>(
    a: A,
    x: Seq<u32>,
    xo: int,
    y: Seq<u32>,
    yo: int,
    lanes: [u32; 8],
    lane: int,
    n: int,
)
    requires
        0 <= n,
        0 <= lane < 8,
    ensures
        lane_sum(a, x, xo, y, yo, lane, 0) == ZERO,
        lane_sum(a, x, xo, y, yo, lane, n + 1) == value(
            a,
            Scalar::Add(
                lane_sum(a, x, xo, y, yo, lane, n),
                value(a, Scalar::Mul(x[xo + 8 * n + lane], y[yo + 8 * n + lane])),
            ),
        ),
        (forall|k: int| 0 <= k < 8 ==> #[trigger] lanes@[k] == lane_sum(a, x, xo, y, yo, k, n))
            ==> lane_product_sum(a, x, xo, y, yo, 8 * n) == value(a, Scalar::SumLanes(lanes)),
        n % 8 != 7 ==> lane_product_sum(a, x, xo, y, yo, n + 1) == value(
            a,
            Scalar::Add(
                lane_product_sum(a, x, xo, y, yo, n),
                value(a, Scalar::Mul(x[xo + n], y[yo + n])),
            ),
        ),
{
    assert(xo + n * 8 + lane == xo + 8 * n + lane && yo + n * 8 + lane == yo + 8 * n + lane);
    if forall|k: int| 0 <= k < 8 ==> #[trigger] lanes@[k] == lane_sum(a, x, xo, y, yo, k, n) {
        let s = lane_sums(a, x, xo, y, yo, n);
        assert(lanes@ =~= s);
        let l = lanes_of(s);
        assert(l@ == s);
        assert(l =~= lanes);
        assert((8 * n) / 8 == n);
    }
    if n % 8 != 7 {
        assert((n + 1) / 8 == n / 8);
    }
}

} // verus!
