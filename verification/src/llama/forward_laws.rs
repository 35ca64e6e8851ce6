//! What a layer does with its weights: which tensor, which layer of it and which row of that
//! layer makes each element, and what is done with the products.

use vstd::prelude::*;

use crate::kernels::{
    attention_of, lane_product_sum, lane_sum, lane_sums, product_sum, rmsnorm_of, rotated, rows_of,
    tail_sum,
};
use crate::layout::{window, window_bounds, written};
use crate::llama::config::{heads_make_up_the_dimension, Config};
use crate::llama::memory::cache_len;
use crate::llama::model::{
    after_attention, after_feed_forward, after_layers, cache_row, head_output, head_outputs,
    layer_cache, logits_of, q8_proj, Flow, ModelWeights, Proj,
};
use crate::math::{dot, row_group_dot, Kernel};
use crate::q8::{int8_data, int8_scales, scaled_sum};
use crate::quant::QuantizedTensor;
use crate::scalar::{negated, value, Scalar, ONE};

verus! {

/// Row `row` of a matrix with rows of `n` elements, times `x`.
pub open spec fn row_dot<A: Fn(Scalar) -> u32>(
    a: A,
    kernel: Kernel,
    m: Seq<u32>,
    row: int,
    x: Seq<u32>,
    n: int,
) -> u32 {
    match kernel {
        Kernel::Scalar => product_sum(a, m, row * n, x, 0, n),
        _ => lane_product_sum(a, m, row * n, x, 0, n),
    }
}

/// Row `row` of a quantized matrix with rows of `n` elements, times `x` quantized in groups of
/// the same size.
pub open spec fn q8_row_dot<A: Fn(Scalar) -> u32>(
    a: A,
    t: QuantizedTensor<'_, u32>,
    row: int,
    x: Seq<u32>,
    n: int,
) -> u32 {
    let gs = t.group_size as int;
    scaled_sum(
        a,
        t.data@,
        t.scales@,
        int8_data(a, x, gs),
        int8_scales(a, x, gs),
        n,
        gs,
        row,
        n / gs,
    )
}

/// Row `row` of all layers' query projections, times `x`.
pub open spec fn query_row<A: Fn(Scalar) -> u32>(
    a: A,
    w: ModelWeights<'_>,
    kernel: Kernel,
    row: int,
    x: Seq<u32>,
) -> u32 {
    match w {
        ModelWeights::F32(w) => row_dot(a, kernel, w.wq@, row, x, x.len() as int),
        ModelWeights::Q8(w) => q8_row_dot(a, w.wq, row, x, x.len() as int),
    }
}

/// Row `row` of all layers' key projections, times `x`.
pub open spec fn key_row<A: Fn(Scalar) -> u32>(
    a: A,
    w: ModelWeights<'_>,
    kernel: Kernel,
    row: int,
    x: Seq<u32>,
) -> u32 {
    match w {
        ModelWeights::F32(w) => row_dot(a, kernel, w.wk@, row, x, x.len() as int),
        ModelWeights::Q8(w) => q8_row_dot(a, w.wk, row, x, x.len() as int),
    }
}

/// Row `row` of all layers' value projections, times `x`.
pub open spec fn value_row<A: Fn(Scalar) -> u32>(
    a: A,
    w: ModelWeights<'_>,
    kernel: Kernel,
    row: int,
    x: Seq<u32>,
) -> u32 {
    match w {
        ModelWeights::F32(w) => row_dot(a, kernel, w.wv@, row, x, x.len() as int),
        ModelWeights::Q8(w) => q8_row_dot(a, w.wv, row, x, x.len() as int),
    }
}

/// Row `row` of all layers' attention output projections, times `x`.
pub open spec fn output_row<A: Fn(Scalar) -> u32>(
    a: A,
    w: ModelWeights<'_>,
    kernel: Kernel,
    row: int,
    x: Seq<u32>,
) -> u32 {
    match w {
        ModelWeights::F32(w) => row_dot(a, kernel, w.wo@, row, x, x.len() as int),
        ModelWeights::Q8(w) => q8_row_dot(a, w.wo, row, x, x.len() as int),
    }
}

/// Row `row` of all layers' gate projections, times `x`.
pub open spec fn gate_row<A: Fn(Scalar) -> u32>(
    a: A,
    w: ModelWeights<'_>,
    kernel: Kernel,
    row: int,
    x: Seq<u32>,
) -> u32 {
    match w {
        ModelWeights::F32(w) => row_dot(a, kernel, w.w1@, row, x, x.len() as int),
        ModelWeights::Q8(w) => q8_row_dot(a, w.w1, row, x, x.len() as int),
    }
}

/// Row `row` of all layers' down projections, times `x`.
pub open spec fn down_row<A: Fn(Scalar) -> u32>(
    a: A,
    w: ModelWeights<'_>,
    kernel: Kernel,
    row: int,
    x: Seq<u32>,
) -> u32 {
    match w {
        ModelWeights::F32(w) => row_dot(a, kernel, w.w2@, row, x, x.len() as int),
        ModelWeights::Q8(w) => q8_row_dot(a, w.w2, row, x, x.len() as int),
    }
}

/// Row `row` of all layers' up projections, times `x`.
pub open spec fn up_row<A: Fn(Scalar) -> u32>(
    a: A,
    w: ModelWeights<'_>,
    kernel: Kernel,
    row: int,
    x: Seq<u32>,
) -> u32 {
    match w {
        ModelWeights::F32(w) => row_dot(a, kernel, w.w3@, row, x, x.len() as int),
        ModelWeights::Q8(w) => q8_row_dot(a, w.w3, row, x, x.len() as int),
    }
}

/// Row `row` of the classifier, times `x`.
pub open spec fn class_row<A: Fn(Scalar) -> u32>(
    a: A,
    w: ModelWeights<'_>,
    kernel: Kernel,
    row: int,
    x: Seq<u32>,
) -> u32 {
    match w {
        ModelWeights::F32(w) => row_dot(a, kernel, w.wcls@, row, x, x.len() as int),
        ModelWeights::Q8(w) => q8_row_dot(a, w.wcls, row, x, x.len() as int),
    }
}

/// `z` times the logistic function of `z`.
pub open spec fn swish<A: Fn(Scalar) -> u32>(a: A, z: u32) -> u32 {
    value(
        a,
        Scalar::Div(z, value(a, Scalar::Add(ONE, value(a, Scalar::Exp(negated(z)))))),
    )
}

/// The gains of a layer's attention norm.
pub open spec fn attention_gains(w: ModelWeights<'_>, l: int, dim: int) -> Seq<u32> {
    match w {
        ModelWeights::F32(w) => w.rms_att@.subrange(l * dim, (l + 1) * dim),
        ModelWeights::Q8(w) => w.rms_att@.subrange(l * dim, (l + 1) * dim),
    }
}

/// The gains of a layer's feed-forward norm.
pub open spec fn feed_forward_gains(w: ModelWeights<'_>, l: int, dim: int) -> Seq<u32> {
    match w {
        ModelWeights::F32(w) => w.rms_ffn@.subrange(l * dim, (l + 1) * dim),
        ModelWeights::Q8(w) => w.rms_ffn@.subrange(l * dim, (l + 1) * dim),
    }
}

/// The gains of the final norm.
pub open spec fn final_gains(w: ModelWeights<'_>) -> Seq<u32> {
    match w {
        ModelWeights::F32(w) => w.rms_final@,
        ModelWeights::Q8(w) => w.rms_final@,
    }
}

/// Products over equal elements are equal.
pub proof fn equal_elements_equal_products<A: Fn(Scalar) -> u32>(
    a: A,
    p: Seq<u32>,
    po: int,
    q: Seq<u32>,
    qo: int,
    x: Seq<u32>,
    xo: int,
    n: int,
)
    requires
        forall|k: int| 0 <= k < n ==> #[trigger] p[po + k] == q[qo + k],
    ensures
        product_sum(a, p, po, x, xo, n) == product_sum(a, q, qo, x, xo, n),
    decreases n,
{
    if n > 0 {
        equal_elements_equal_products(a, p, po, q, qo, x, xo, n - 1);
        assert(p[po + (n - 1)] == q[qo + (n - 1)]);
    }
}

proof fn equal_elements_equal_lanes<A: Fn(Scalar) -> u32>(
    a: A,
    p: Seq<u32>,
    po: int,
    q: Seq<u32>,
    qo: int,
    x: Seq<u32>,
    xo: int,
    lane: int,
    n: int,
)
    requires
        0 <= lane < 8,
        forall|k: int| 0 <= k < n * 8 ==> #[trigger] p[po + k] == q[qo + k],
    ensures
        lane_sum(a, p, po, x, xo, lane, n) == lane_sum(a, q, qo, x, xo, lane, n),
    decreases n,
{
    if n > 0 {
        equal_elements_equal_lanes(a, p, po, q, qo, x, xo, lane, n - 1);
        let k = (n - 1) * 8 + lane;
        assert(p[po + k] == q[qo + k]);
        assert(po + (n - 1) * 8 + lane == po + k && qo + (n - 1) * 8 + lane == qo + k);
    }
}

proof fn equal_elements_equal_tails<A: Fn(Scalar) -> u32>(
    a: A,
    start: u32,
    p: Seq<u32>,
    po: int,
    q: Seq<u32>,
    qo: int,
    x: Seq<u32>,
    xo: int,
    from: int,
    n: int,
)
    requires
        0 <= from,
        forall|k: int| 0 <= k < n ==> #[trigger] p[po + k] == q[qo + k],
    ensures
        tail_sum(a, start, p, po, x, xo, from, n) == tail_sum(a, start, q, qo, x, xo, from, n),
    decreases n - from,
{
    if n > from {
        equal_elements_equal_tails(a, start, p, po, q, qo, x, xo, from, n - 1);
        assert(p[po + (n - 1)] == q[qo + (n - 1)]);
    }
}

/// Eight-lane products over equal elements are equal.
pub proof fn equal_elements_equal_lane_products<A: Fn(Scalar) -> u32>(
    a: A,
    p: Seq<u32>,
    po: int,
    q: Seq<u32>,
    qo: int,
    x: Seq<u32>,
    xo: int,
    n: int,
)
    requires
        n >= 0,
        forall|k: int| 0 <= k < n ==> #[trigger] p[po + k] == q[qo + k],
    ensures
        lane_product_sum(a, p, po, x, xo, n) == lane_product_sum(a, q, qo, x, xo, n),
{
    let chunks = n / 8;
    assert forall|lane: int| 0 <= lane < 8 implies lane_sum(a, p, po, x, xo, lane, chunks)
        == lane_sum(a, q, qo, x, xo, lane, chunks) by {
        equal_elements_equal_lanes(a, p, po, q, qo, x, xo, lane, chunks);
    }
    assert(lane_sums(a, p, po, x, xo, chunks) =~= lane_sums(a, q, qo, x, xo, chunks));
    let start = value(
        a,
        Scalar::SumLanes(crate::kernels::lanes_of(lane_sums(a, p, po, x, xo, chunks))),
    );
    equal_elements_equal_tails(a, start, p, po, q, qo, x, xo, chunks * 8, n);
}

/// Row `i` of layer `l` of a matrix is row `l * d_out + i` of all its layers.
pub proof fn layer_row<A: Fn(Scalar) -> u32>(
    a: A,
    kernel: Kernel,
    t: Seq<u32>,
    x: Seq<u32>,
    layers: nat,
    l: int,
    d_in: nat,
    d_out: nat,
    i: int,
)
    requires
        0 <= l < layers,
        0 <= i < d_out,
        t.len() == layers * (d_out * d_in),
    ensures
        row_dot(a, kernel, window(t, l, (d_out * d_in) as int), i, x, d_in as int) == row_dot(
            a,
            kernel,
            t,
            l * d_out + i,
            x,
            d_in as int,
        ),
{
    let n = (d_out * d_in) as int;
    let m = window(t, l, n);
    let (p, q) = (i * d_in, (l * d_out + i) * d_in);
    window_bounds(layers, l, n as nat);
    window_bounds(d_out, i, d_in);
    assert(q == l * (d_out * d_in) + i * d_in) by (nonlinear_arith)
        requires
            q == (l * d_out + i) * d_in,
    ;
    assert forall|k: int| 0 <= k < d_in implies #[trigger] m[p + k] == t[q + k] by {}
    equal_elements_equal_products(a, m, p, t, q, x, 0, d_in as int);
    equal_elements_equal_lane_products(a, m, p, t, q, x, 0, d_in as int);
}

proof fn equal_elements_equal_dots(
    p: Seq<i8>,
    po: int,
    q: Seq<i8>,
    qo: int,
    x: Seq<i8>,
    xo: int,
    n: int,
)
    requires
        forall|k: int| 0 <= k < n ==> #[trigger] p[po + k] == q[qo + k],
    ensures
        dot(p, x, po, xo, n) == dot(q, x, qo, xo, n),
    decreases n,
{
    if n > 0 {
        equal_elements_equal_dots(p, po, q, qo, x, xo, n - 1);
        assert(p[po + (n - 1)] == q[qo + (n - 1)]);
    }
}

proof fn layer_groups<A: Fn(Scalar) -> u32>(
    a: A,
    data: Seq<i8>,
    scales: Seq<u32>,
    xq: Seq<i8>,
    xs: Seq<u32>,
    layers: nat,
    l: int,
    d_in: nat,
    d_out: nat,
    gs: nat,
    i: int,
    n: int,
)
    requires
        0 <= l < layers,
        0 <= i < d_out,
        gs > 0,
        d_in % gs == 0,
        0 <= n <= d_in / gs,
        data.len() == layers * (d_out * d_in),
        scales.len() == layers * (d_out * (d_in / gs)),
    ensures
        scaled_sum(
            a,
            window(data, l, (d_out * d_in) as int),
            window(scales, l, (d_out * (d_in / gs)) as int),
            xq,
            xs,
            d_in as int,
            gs as int,
            i,
            n,
        ) == scaled_sum(a, data, scales, xq, xs, d_in as int, gs as int, l * d_out + i, n),
    decreases n,
{
    if n > 0 {
        layer_groups(a, data, scales, xq, xs, layers, l, d_in, d_out, gs, i, n - 1);
        let groups = (d_in / gs) as int;
        let g = n - 1;
        let (d, s) = (
            window(data, l, (d_out * d_in) as int),
            window(scales, l, (d_out * (d_in / gs)) as int),
        );
        window_bounds(layers, l, d_out * d_in);
        window_bounds(layers, l, d_out * (d_in / gs));
        window_bounds(d_out, i, d_in);
        window_bounds(d_out, i, groups as nat);
        window_bounds(groups as nat, g, gs);
        vstd::arithmetic::div_mod::lemma_fundamental_div_mod(d_in as int, gs as int);
        assert(groups * gs == d_in) by (nonlinear_arith)
            requires
                d_in == gs * groups + 0,
        ;
        let (po, qo) = (i * d_in + g * gs, (l * d_out + i) * d_in + g * gs);
        assert((l * d_out + i) * d_in == l * (d_out * d_in) + i * d_in) by (nonlinear_arith);
        assert((l * d_out + i) * groups == l * (d_out * groups) + i * groups)
            by (nonlinear_arith);
        assert forall|k: int| 0 <= k < gs implies #[trigger] d[po + k] == data[qo + k] by {}
        equal_elements_equal_dots(d, po, data, qo, xq, g * gs, gs as int);
        assert(row_group_dot(d, xq, d_in as int, gs as int, i, g) == row_group_dot(
            data,
            xq,
            d_in as int,
            gs as int,
            l * d_out + i,
            g,
        ));
        assert(s[i * groups + g] == scales[(l * d_out + i) * groups + g]);
    }
}

/// Row `i` of layer `l` of a quantized matrix is row `l * d_out + i` of all its layers.
pub proof fn q8_layer_row<A: Fn(Scalar) -> u32>(
    a: A,
    t: QuantizedTensor<'_, u32>,
    x: Seq<u32>,
    layers: nat,
    l: int,
    d_in: nat,
    d_out: nat,
    i: int,
)
    requires
        0 <= l < layers,
        0 <= i < d_out,
        t.group_size > 0,
        d_in % t.group_size as nat == 0,
        t.data@.len() == layers * (d_out * d_in),
        t.scales@.len() == layers * (d_out * d_in) / t.group_size as nat,
    ensures
        (d_out * d_in) / t.group_size as nat == d_out * (d_in / t.group_size as nat),
        scaled_sum(
            a,
            window(t.data@, l, (d_out * d_in) as int),
            window(t.scales@, l, ((d_out * d_in) / t.group_size as nat) as int),
            int8_data(a, x, t.group_size as int),
            int8_scales(a, x, t.group_size as int),
            d_in as int,
            t.group_size as int,
            i,
            d_in as int / t.group_size as int,
        ) == q8_row_dot(a, t, l * d_out + i, x, d_in as int),
{
    let gs = t.group_size as nat;
    let groups = d_in / gs;
    vstd::arithmetic::div_mod::lemma_fundamental_div_mod(d_in as int, gs as int);
    assert(d_out * d_in == (d_out * groups) * gs) by (nonlinear_arith)
        requires
            d_in == gs * groups + 0,
    ;
    vstd::arithmetic::div_mod::lemma_div_multiples_vanish((d_out * groups) as int, gs as int);
    assert((d_out * groups) * gs == gs * (d_out * groups)) by (nonlinear_arith);
    assert((d_out * d_in) / gs == d_out * groups);
    assert(layers * (d_out * d_in) == gs * (layers * (d_out * groups))) by (nonlinear_arith)
        requires
            d_out * d_in == (d_out * groups) * gs,
    ;
    vstd::arithmetic::div_mod::lemma_div_multiples_vanish(
        (layers * (d_out * groups)) as int,
        gs as int,
    );
    assert(t.scales@.len() == layers * (d_out * groups));
    layer_groups(
        a,
        t.data@,
        t.scales@,
        int8_data(a, x, gs as int),
        int8_scales(a, x, gs as int),
        layers,
        l,
        d_in,
        d_out,
        gs,
        i,
        groups as int,
    );
}

/// An element of a projection is one row of its tensor times the input.
proof fn projection_row<A: Fn(Scalar) -> u32>(
    a: A,
    c: Config,
    w: ModelWeights<'_>,
    kernel: Kernel,
    p: Proj,
    l: int,
    x: Seq<u32>,
    i: int,
)
    requires
        c.valid(),
        w.fits(c),
        0 <= l < p.layers(c),
        x.len() == p.dims(c).0,
        0 <= i < p.dims(c).1,
    ensures
        w.projected(a, c, kernel, p, l, x).len() == p.dims(c).1,
        w is F32 ==> w.projected(a, c, kernel, p, l, x)[i] == row_dot(
            a,
            kernel,
            crate::llama::model::full_tensor(w->F32_0, p),
            l * p.dims(c).1 + i,
            x,
            x.len() as int,
        ),
        w is Q8 ==> w.projected(a, c, kernel, p, l, x)[i] == q8_row_dot(
            a,
            q8_proj(w->Q8_0, p),
            l * p.dims(c).1 + i,
            x,
            x.len() as int,
        ),
{
    let (d_in, d_out) = p.dims(c);
    let layers = p.layers(c);
    let (n, dim, hidden) = (c.n_layers as nat, c.dim as nat, c.hidden_dim as nat);
    let (att, kv) = (c.att_dim_spec(), c.kv_dim_spec());
    heads_make_up_the_dimension(c);
    match w {
        ModelWeights::F32(f) => {
            let t = crate::llama::model::full_tensor(f, p);
            assert(n * dim * att == n * (att * dim)) by (nonlinear_arith);
            assert(n * dim * kv == n * (kv * dim)) by (nonlinear_arith);
            assert(n * att * dim == n * (dim * att)) by (nonlinear_arith);
            assert(n * hidden * dim == n * (hidden * dim)) by (nonlinear_arith);
            assert(n * dim * hidden == n * (dim * hidden)) by (nonlinear_arith);
            assert(t.len() == layers * (d_out * d_in));
            layer_row(a, kernel, t, x, layers, l, d_in, d_out, i);
        },
        ModelWeights::Q8(f) => {
            let t = q8_proj(f, p);
            assert(crate::llama::model::tensor_shaped(t, layers * p.size(c), f.wq.group_size));
            q8_layer_row(a, t, x, layers, l, d_in, d_out, i);
        },
    }
}

/// The feed-forward block of layer `l` norms the stream with the layer's own gains, multiplies
/// the swish of row `j` of the tensor `w1` times that with row `j` of the tensor `w3` times that,
/// and adds row `i` of the tensor `w2` times the products to element `i`.
pub proof fn feed_forward_is_gated<A: Fn(Scalar) -> u32>(
    a: A,
    c: Config,
    w: ModelWeights<'_>,
    kernel: Kernel,
    l: int,
    x: Seq<u32>,
    hidden: Seq<u32>,
    i: int,
)
    requires
        c.valid(),
        w.fits(c),
        0 <= l < c.n_layers,
        x.len() == c.dim,
        0 <= i < c.dim,
        hidden.len() == c.hidden_dim,
        forall|j: int|
            0 <= j < c.hidden_dim ==> #[trigger] hidden[j] == value(
                a,
                Scalar::Mul(
                    swish(
                        a,
                        gate_row(
                            a,
                            w,
                            kernel,
                            l * c.hidden_dim + j,
                            rmsnorm_of(a, x, feed_forward_gains(w, l, c.dim as int)),
                        ),
                    ),
                    up_row(
                        a,
                        w,
                        kernel,
                        l * c.hidden_dim + j,
                        rmsnorm_of(a, x, feed_forward_gains(w, l, c.dim as int)),
                    ),
                ),
            ),
    ensures
        after_feed_forward(a, c, w, kernel, l, x).len() == c.dim,
        after_feed_forward(a, c, w, kernel, l, x)[i] == value(
            a,
            Scalar::Add(x[i], down_row(a, w, kernel, l * c.dim + i, hidden)),
        ),
{
    let dim = c.dim as int;
    assert(l * dim + dim == (l + 1) * dim) by (nonlinear_arith);
    assert(window(w.rms_ffn_spec(), l, dim) =~= feed_forward_gains(w, l, dim));
    let normed = rmsnorm_of(a, x, window(w.rms_ffn_spec(), l, dim));
    let gate = w.projected(a, c, kernel, Proj::W1, l, normed);
    let up = w.projected(a, c, kernel, Proj::W3, l, normed);
    let made = crate::llama::model::gated(a, gate, up);
    assert forall|j: int| 0 <= j < c.hidden_dim implies #[trigger] made[j] == hidden[j] by {
        projection_row(a, c, w, kernel, Proj::W1, l, normed, j);
        projection_row(a, c, w, kernel, Proj::W3, l, normed, j);
    }
    projection_row(a, c, w, kernel, Proj::W1, l, normed, 0);
    assert(made =~= hidden);
    projection_row(a, c, w, kernel, Proj::W2, l, hidden, i);
}

/// The logits are the rows of the classifier times the stream, normed with the final gains.
pub proof fn logits_are_classifier_rows<A: Fn(Scalar) -> u32>(
    a: A,
    c: Config,
    w: ModelWeights<'_>,
    kernel: Kernel,
    x: Seq<u32>,
    i: int,
)
    requires
        c.valid(),
        w.fits(c),
        x.len() == c.dim,
        0 <= i < c.vocab_size,
    ensures
        logits_of(a, c, w, kernel, x).len() == c.vocab_size,
        logits_of(a, c, w, kernel, x)[i] == class_row(
            a,
            w,
            kernel,
            i,
            rmsnorm_of(a, x, final_gains(w)),
        ),
{
    projection_row(a, c, w, kernel, Proj::Wcls, 0, rmsnorm_of(a, x, final_gains(w)), i);
}

/// A token enters as its own row of the embedding table; a quantized one has each element times
/// the scale of its group.
pub proof fn tokens_enter_as_their_rows<A: Fn(Scalar) -> u32>(
    a: A,
    c: Config,
    w: ModelWeights<'_>,
    token: int,
    i: int,
)
    requires
        c.valid(),
        w.fits(c),
        0 <= token < c.vocab_size,
        0 <= i < c.dim,
    ensures
        w.embedding(a, token, c.dim as nat).len() == c.dim,
        w matches ModelWeights::F32(f) ==> w.embedding(a, token, c.dim as nat)[i]
            == f.token_embedding@[token * c.dim + i],
        w matches ModelWeights::Q8(f) ==> w.embedding(a, token, c.dim as nat)[i] == value(
            a,
            Scalar::Mul(
                value(a, Scalar::Int(f.token_embedding.data@[token * c.dim + i] as i32)),
                f.token_embedding.scales@[(token * c.dim + i)
                    / f.token_embedding.group_size as int],
            ),
        ),
{
    let dim = c.dim as nat;
    window_bounds(c.vocab_size as nat, token, dim);
    match w {
        ModelWeights::F32(_) => {},
        ModelWeights::Q8(f) => {
            let gs = f.token_embedding.group_size as nat;
            let groups = dim / gs;
            vstd::arithmetic::div_mod::lemma_fundamental_div_mod(dim as int, gs as int);
            vstd::arithmetic::div_mod::lemma_fundamental_div_mod(i, gs as int);
            let (q, m) = (i / gs as int, i % gs as int);
            assert(token * dim + i == gs * (token * groups + q) + m) by (nonlinear_arith)
                requires
                    dim == gs * groups + 0,
                    i == gs * q + m,
            ;
            vstd::arithmetic::div_mod::lemma_fundamental_div_mod_converse(
                token * dim + i,
                gs as int,
                token * groups + q,
                m,
            );
            assert(0 <= q < groups) by (nonlinear_arith)
                requires
                    0 <= i < dim,
                    dim == gs * groups + 0,
                    i == gs * q + m,
                    0 <= m < gs,
            ;
            let v = c.vocab_size as nat;
            assert(v * dim == gs * (v * groups)) by (nonlinear_arith)
                requires
                    dim == gs * groups + 0,
            ;
            vstd::arithmetic::div_mod::lemma_div_multiples_vanish((v * groups) as int, gs as int);
            window_bounds(v, token, groups);
        },
    }
}

/// Where the heads' outputs hold element `e` of head `m` of those that share key/value head `g`.
pub open spec fn head_place(c: Config, g: int, m: int, e: int) -> int {
    (g * (c.n_heads as int / c.n_kv_heads as int) + m) * c.head_size_spec() + e
}

/// The rows that a cache of all layers holds for key/value head `g` of layer `l`, up to `pos`.
pub open spec fn past(c: Config, cache: Seq<u32>, l: int, g: int, pos: int) -> Seq<Seq<u32>> {
    let size = c.head_size_spec() as int;
    Seq::new(
        (pos + 1) as nat,
        |t: int|
            cache.subrange(
                (l * c.seq_len + t) * c.kv_dim_spec() + g * size,
                (l * c.seq_len + t) * c.kv_dim_spec() + (g + 1) * size,
            ),
    )
}

/// Whether `heads` holds the outputs of all heads: each attends with its own part of the query
/// to what the cache holds for its key/value head up to `pos`, at a scale of one over the root of
/// the head size, and consecutive heads share a key/value head.
pub open spec fn attends<A: Fn(Scalar) -> u32>(
    a: A,
    c: Config,
    q: Seq<u32>,
    keys: Seq<u32>,
    values: Seq<u32>,
    l: int,
    pos: int,
    heads: Seq<u32>,
) -> bool {
    let size = c.head_size_spec() as int;
    let shared = c.n_heads as int / c.n_kv_heads as int;
    let scale = value(
        a,
        Scalar::Div(ONE, value(a, Scalar::Sqrt(value(a, Scalar::Count(size as usize))))),
    );
    &&& heads.len() == c.dim
    &&& forall|g: int, m: int, e: int|
        0 <= g < c.n_kv_heads && 0 <= m < shared && 0 <= e < size
            ==> #[trigger] heads[head_place(c, g, m, e)] == attention_of(
            a,
            q.subrange((g * shared + m) * size, (g * shared + m) * size + size),
            past(c, keys, l, g, pos),
            past(c, values, l, g, pos),
            scale,
        )[e]
}

/// The outputs of `n` heads, one behind the other.
proof fn heads_in_order<A: Fn(Scalar) -> u32>(
    a: A,
    c: Config,
    q: Seq<u32>,
    keys: Seq<u32>,
    values: Seq<u32>,
    pos: int,
    n: int,
)
    requires
        0 <= n <= c.n_heads,
        q.len() == c.att_dim_spec(),
    ensures
        head_outputs(a, c, q, keys, values, pos, n).len() == n * c.head_size_spec(),
        forall|h: int, e: int|
            0 <= h < n && 0 <= e < c.head_size_spec() ==> head_outputs(
                a,
                c,
                q,
                keys,
                values,
                pos,
                n,
            )[h * c.head_size_spec() + e] == #[trigger] head_output(
                a,
                c,
                q,
                keys,
                values,
                pos,
                h,
            )[e],
    decreases n,
{
    let size = c.head_size_spec();
    if n > 0 {
        heads_in_order(a, c, q, keys, values, pos, n - 1);
        let before = head_outputs(a, c, q, keys, values, pos, n - 1);
        let last = head_output(a, c, q, keys, values, pos, n - 1);
        window_bounds(c.n_heads as nat, n - 1, size);
        assert(last.len() == size);
        let all = head_outputs(a, c, q, keys, values, pos, n);
        assert forall|h: int, e: int| 0 <= h < n && 0 <= e < size implies all[h * size + e]
            == #[trigger] head_output(a, c, q, keys, values, pos, h)[e] by {
            if h < n - 1 {
                window_bounds((n - 1) as nat, h, size);
                assert(before[h * size + e] == head_output(a, c, q, keys, values, pos, h)[e]);
            }
        }
    }
}

/// The rows of a layer's part of a cache are rows of the cache.
proof fn past_rows(c: Config, cache: Seq<u32>, l: int, g: int, pos: int)
    requires
        c.valid(),
        cache.len() == cache_len(c),
        0 <= l < c.n_layers,
        0 <= g < c.n_kv_heads,
        0 <= pos < c.seq_len,
    ensures
        rows_of(
            layer_cache(c, cache, l),
            c.kv_dim_spec() as int,
            g * c.head_size_spec(),
            c.head_size_spec() as int,
            (pos + 1) as nat,
        ) == past(c, cache, l, g, pos),
{
    let size = c.head_size_spec();
    let kv = c.kv_dim_spec();
    let rows = c.seq_len as nat * kv;
    window_bounds(c.n_layers as nat, l, rows);
    window_bounds(c.n_kv_heads as nat, g, size);
    let (n, s) = (c.n_layers as nat, c.seq_len as nat);
    assert(n * s * kv == n * (s * kv)) by (nonlinear_arith);
    let made = rows_of(layer_cache(c, cache, l), kv as int, g * size, size as int, (pos + 1) as nat);
    assert forall|t: int| 0 <= t <= pos implies #[trigger] made[t] == past(
        c,
        cache,
        l,
        g,
        pos,
    )[t] by {
        window_bounds(s, t, kv);
        assert((l * s + t) * kv == l * (s * kv) + t * kv) by (nonlinear_arith);
        assert(made[t] =~= past(c, cache, l, g, pos)[t]);
    }
    assert(made =~= past(c, cache, l, g, pos));
}

/// The attention block of layer `l` norms the stream with the layer's own gains; stores the
/// turned rows of `wk` times that as the key of this position, and the rows of `wv` times that
/// as its value; lets every head attend with its turned part of `wq` times that; and adds row `i`
/// of `wo` times the heads' outputs to element `i`.
pub proof fn attention_reads_the_cache<A: Fn(Scalar) -> u32>(
    a: A,
    c: Config,
    w: ModelWeights<'_>,
    kernel: Kernel,
    pos: usize,
    l: int,
    f: Flow,
    normed: Seq<u32>,
    query: Seq<u32>,
    key: Seq<u32>,
)
    requires
        c.valid(),
        w.fits(c),
        0 <= l < c.n_layers,
        pos < c.seq_len,
        f.x.len() == c.dim,
        f.keys.len() == cache_len(c),
        f.values.len() == cache_len(c),
        normed == rmsnorm_of(a, f.x, attention_gains(w, l, c.dim as int)),
        query.len() == c.dim,
        forall|j: int|
            0 <= j < c.dim ==> #[trigger] query[j] == query_row(
                a,
                w,
                kernel,
                l * c.dim + j,
                normed,
            ),
        key.len() == c.kv_dim_spec(),
        forall|j: int|
            0 <= j < c.kv_dim_spec() ==> #[trigger] key[j] == key_row(
                a,
                w,
                kernel,
                l * c.kv_dim_spec() + j,
                normed,
            ),
    ensures
        after_attention(a, c, w, kernel, pos, l, f).keys == written(
            f.keys,
            (l * c.seq_len + pos) * c.kv_dim_spec(),
            rotated(a, key, pos, c.head_size_spec() as usize),
        ),
        after_attention(a, c, w, kernel, pos, l, f).values.len() == cache_len(c),
        forall|j: int|
            0 <= j < c.kv_dim_spec() ==> #[trigger] after_attention(
                a,
                c,
                w,
                kernel,
                pos,
                l,
                f,
            ).values[value_place(c, l, pos as int, j)] == value_row(
                a,
                w,
                kernel,
                l * c.kv_dim_spec() + j,
                normed,
            ),
        after_attention(a, c, w, kernel, pos, l, f).x.len() == c.dim,
        exists|heads: Seq<u32>| #[trigger]
            attends(
                a,
                c,
                rotated(a, query, pos, c.head_size_spec() as usize),
                after_attention(a, c, w, kernel, pos, l, f).keys,
                after_attention(a, c, w, kernel, pos, l, f).values,
                l,
                pos as int,
                heads,
            ) && forall|i: int|
                0 <= i < c.dim ==> #[trigger] after_attention(a, c, w, kernel, pos, l, f).x[i]
                    == value(
                    a,
                    Scalar::Add(f.x[i], output_row(a, w, kernel, l * c.dim + i, heads)),
                ),
{
    let dim = c.dim as int;
    let size = c.head_size_spec();
    let kv = c.kv_dim_spec();
    heads_make_up_the_dimension(c);
    assert(l * dim + dim == (l + 1) * dim) by (nonlinear_arith);
    assert(window(w.rms_att_spec(), l, dim) =~= attention_gains(w, l, dim));
    let out = after_attention(a, c, w, kernel, pos, l, f);
    let q0 = w.projected(a, c, kernel, Proj::Wq, l, normed);
    let k0 = w.projected(a, c, kernel, Proj::Wk, l, normed);
    let v0 = w.projected(a, c, kernel, Proj::Wv, l, normed);
    assert forall|j: int| 0 <= j < dim implies #[trigger] q0[j] == query[j] by {
        projection_row(a, c, w, kernel, Proj::Wq, l, normed, j);
    }
    projection_row(a, c, w, kernel, Proj::Wq, l, normed, 0);
    assert(q0 =~= query);
    window_bounds(c.n_kv_heads as nat, 0, size);
    assert forall|j: int| 0 <= j < kv implies #[trigger] k0[j] == key[j] && v0[j] == value_row(
        a,
        w,
        kernel,
        l * kv + j,
        normed,
    ) by {
        projection_row(a, c, w, kernel, Proj::Wk, l, normed, j);
        projection_row(a, c, w, kernel, Proj::Wv, l, normed, j);
    }
    projection_row(a, c, w, kernel, Proj::Wk, l, normed, 0);
    projection_row(a, c, w, kernel, Proj::Wv, l, normed, 0);
    assert(k0 =~= key);
    let (n, s) = (c.n_layers as nat, c.seq_len as nat);
    let at = cache_row(c, l, pos as int);
    assert(at == (l * s + pos) * kv) by (nonlinear_arith)
        requires
            at == l * (s * kv) + pos * kv,
    ;
    window_bounds(n, l, s * kv);
    window_bounds(s, pos as int, kv);
    assert(n * s * kv == n * (s * kv)) by (nonlinear_arith);
    assert(out.values == written(f.values, at, v0));
    assert forall|j: int| 0 <= j < kv implies #[trigger] out.values[value_place(
        c,
        l,
        pos as int,
        j,
    )] == value_row(a, w, kernel, l * kv + j, normed) by {
        assert(k0[j] == key[j]);
        assert(out.values[at + j] == v0[j]);
    }
    let q = rotated(a, query, pos, size as usize);
    let heads = head_outputs(
        a,
        c,
        q,
        layer_cache(c, out.keys, l),
        layer_cache(c, out.values, l),
        pos as int,
        c.n_heads as int,
    );
    heads_in_order(
        a,
        c,
        q,
        layer_cache(c, out.keys, l),
        layer_cache(c, out.values, l),
        pos as int,
        c.n_heads as int,
    );
    let shared = c.n_heads as int / c.n_kv_heads as int;
    let kh = c.n_kv_heads as int;
    vstd::arithmetic::div_mod::lemma_fundamental_div_mod(c.n_heads as int, kh);
    assert forall|g: int, m: int, e: int| 0 <= g < kh && 0 <= m < shared && 0 <= e < size implies
        #[trigger] heads[head_place(c, g, m, e)] == attention_of(
        a,
        q.subrange((g * shared + m) * size, (g * shared + m) * size + size),
        past(c, out.keys, l, g, pos as int),
        past(c, out.values, l, g, pos as int),
        value(
            a,
            Scalar::Div(ONE, value(a, Scalar::Sqrt(value(a, Scalar::Count(size as usize))))),
        ),
    )[e] by {
        let h = g * shared + m;
        assert(0 <= h < c.n_heads && h / shared == g) by {
            vstd::arithmetic::div_mod::lemma_fundamental_div_mod_converse(h, shared, g, m);
            assert(g * shared + shared <= kh * shared && g * shared >= 0) by (nonlinear_arith)
                requires
                    0 <= g < kh,
                    shared >= 0,
            ;
            assert(kh * shared == shared * kh) by (nonlinear_arith);
            assert(shared * g == g * shared) by (nonlinear_arith);
        }
        past_rows(c, out.keys, l, g, pos as int);
        past_rows(c, out.values, l, g, pos as int);
        assert(heads[h * size + e] == head_output(
            a,
            c,
            q,
            layer_cache(c, out.keys, l),
            layer_cache(c, out.values, l),
            pos as int,
            h,
        )[e]);
    }
    assert(attends(a, c, q, out.keys, out.values, l, pos as int, heads));
    assert forall|i: int| 0 <= i < dim implies #[trigger] out.x[i] == value(
        a,
        Scalar::Add(f.x[i], output_row(a, w, kernel, l * dim + i, heads)),
    ) by {
        projection_row(a, c, w, kernel, Proj::Wo, l, heads, i);
    }
}

/// Where a cache of all layers holds element `j` of position `pos` of layer `l`.
pub open spec fn value_place(c: Config, l: int, pos: int, j: int) -> int {
    (l * c.seq_len + pos) * c.kv_dim_spec() + j
}

/// One more layer is its attention block and then its feed-forward block, on what the layers
/// before it leave.
pub proof fn layers_run_in_order<A: Fn(Scalar) -> u32>(
    a: A,
    c: Config,
    w: ModelWeights<'_>,
    kernel: Kernel,
    pos: usize,
    f: Flow,
    l: int,
)
    requires
        0 <= l,
    ensures
        after_layers(a, c, w, kernel, pos, f, 0) == f,
        ({
            let before = after_layers(a, c, w, kernel, pos, f, l);
            let attended = after_attention(a, c, w, kernel, pos, l, before);
            let after = after_layers(a, c, w, kernel, pos, f, l + 1);
            &&& after.keys == attended.keys
            &&& after.values == attended.values
            &&& after.x == after_feed_forward(a, c, w, kernel, l, attended.x)
        }),
{
}

} // verus!
