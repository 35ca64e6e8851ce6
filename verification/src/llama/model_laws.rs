//! What a forward pass promises: it changes the caches at its own position only, its logits
//! depend on the positions before it and on nothing behind it, and with quantized weights
//! every kernel gives the same.

use vstd::prelude::*;

use crate::kernels::{rmsnorm_of, rotated, rows_of};
use crate::layout::{part, window, window_bounds, written};
use crate::llama::config::{heads_make_up_the_dimension, Config};
use crate::llama::memory::cache_len;
use crate::llama::model::{
    after_attention, after_layers, cache_row, groups_fit_rows, head_outputs, layer_cache,
    logits_of, q8_proj, state_ready, tensor_shaped, Flow, ModelWeights, Proj,
};
use crate::llama::quantize::{quantized_lens, views_parts, QuantizedWeights};
use crate::llama::state::{state_lens, RunState};
use crate::math::Kernel;
use crate::quant::{group_lens, quantized_part_lengths};
use crate::scalar::Scalar;

verus! {

/// Whether the caches have the length that a config implies.
pub open spec fn flow_fits(c: Config, f: Flow) -> bool {
    f.keys.len() == cache_len(c) && f.values.len() == cache_len(c)
}

/// Whether index `k` belongs to the cached row of `pos` in layer `l`.
pub open spec fn in_row(c: Config, l: int, pos: int, k: int) -> bool {
    cache_row(c, l, pos) <= k < cache_row(c, l, pos) + c.kv_dim_spec()
}

/// The cached row of a position lies within the cache.
proof fn row_bounds(c: Config, l: int, pos: int)
    requires
        0 <= l < c.n_layers,
        0 <= pos < c.seq_len,
    ensures
        0 <= cache_row(c, l, pos),
        cache_row(c, l, pos) + c.kv_dim_spec() <= cache_len(c),
{
    let rows = c.seq_len as nat * c.kv_dim_spec();
    window_bounds(c.n_layers as nat, l, rows);
    window_bounds(c.seq_len as nat, pos, c.kv_dim_spec());
    let (n, s, k) = (c.n_layers as nat, c.seq_len as nat, c.kv_dim_spec());
    assert(n * s * k == n * (s * k)) by (nonlinear_arith);
}

/// A projection has as many elements as its output dimension.
proof fn projected_len<A: Fn(Scalar) -> u32>(
    a: A,
    c: Config,
    w: ModelWeights<'_>,
    kernel: Kernel,
    p: Proj,
    l: int,
    x: Seq<u32>,
)
    ensures
        w.projected(a, c, kernel, p, l, x).len() == p.dims(c).1,
{
}

/// A forward pass changes the caches at its own position only: every other element stays.
pub proof fn forward_changes_its_position_only<A: Fn(Scalar) -> u32>(
    a: A,
    c: Config,
    w: ModelWeights<'_>,
    kernel: Kernel,
    pos: usize,
    f: Flow,
    n: int,
    k: int,
)
    requires
        flow_fits(c, f),
        pos < c.seq_len,
        0 <= n <= c.n_layers,
        0 <= k < cache_len(c),
        forall|l: int| 0 <= l < n ==> !#[trigger] in_row(c, l, pos as int, k),
    ensures
        flow_fits(c, after_layers(a, c, w, kernel, pos, f, n)),
        after_layers(a, c, w, kernel, pos, f, n).keys[k] == f.keys[k],
        after_layers(a, c, w, kernel, pos, f, n).values[k] == f.values[k],
    decreases n,
{
    if n > 0 {
        forward_changes_its_position_only(a, c, w, kernel, pos, f, n - 1, k);
        row_bounds(c, n - 1, pos as int);
        assert(!in_row(c, n - 1, pos as int, k));
    }
}

/// Whether two caches hold the same in the positions before `pos` of every layer.
pub open spec fn same_history(c: Config, p: Seq<u32>, q: Seq<u32>, pos: int) -> bool {
    forall|l: int, t: int, j: int|
        #![trigger cache_row(c, l, t), p[cache_row(c, l, t) + j]]
        0 <= l < c.n_layers && 0 <= t < pos && 0 <= j < c.kv_dim_spec() ==> p[cache_row(c, l, t)
            + j] == q[cache_row(c, l, t) + j]
}

/// The rows that a head attends to are the same in caches that agree on the positions
/// before, once the row of this position is written.
proof fn same_rows(
    c: Config,
    p: Seq<u32>,
    q: Seq<u32>,
    row: Seq<u32>,
    l: int,
    pos: int,
    off: int,
    size: int,
)
    requires
        p.len() == cache_len(c),
        q.len() == cache_len(c),
        row.len() == c.kv_dim_spec(),
        0 <= l < c.n_layers,
        0 <= pos < c.seq_len,
        0 <= off,
        0 <= size,
        off + size <= c.kv_dim_spec(),
        same_history(c, p, q, pos),
    ensures
        ({
            let at = cache_row(c, l, pos);
            let stride = c.kv_dim_spec() as int;
            rows_of(layer_cache(c, written(p, at, row), l), stride, off, size, (pos + 1) as nat)
                == rows_of(
                layer_cache(c, written(q, at, row), l),
                stride,
                off,
                size,
                (pos + 1) as nat,
            )
        }),
{
    let at = cache_row(c, l, pos);
    let stride = c.kv_dim_spec() as int;
    let rows = (c.seq_len as nat * c.kv_dim_spec()) as int;
    let wp = written(p, at, row);
    let wq = written(q, at, row);
    let rp = rows_of(layer_cache(c, wp, l), stride, off, size, (pos + 1) as nat);
    let rq = rows_of(layer_cache(c, wq, l), stride, off, size, (pos + 1) as nat);
    row_bounds(c, l, pos);
    window_bounds(c.n_layers as nat, l, rows as nat);
    let (n, s, k) = (c.n_layers as nat, c.seq_len as nat, c.kv_dim_spec());
    assert(n * s * k == n * (s * k)) by (nonlinear_arith);
    assert forall|t: int| 0 <= t < pos + 1 implies #[trigger] rp[t] == rq[t] by {
        row_bounds(c, l, t);
        window_bounds(c.seq_len as nat, t, c.kv_dim_spec());
        assert(t < pos ==> t * stride + stride <= pos * stride) by (nonlinear_arith)
            requires
                stride >= 0,
        ;
        assert forall|j: int| 0 <= j < size implies #[trigger] rp[t][j] == rq[t][j] by {
            let i = l * rows + (t * stride + off + j);
            assert(rp[t][j] == wp[i]);
            assert(rq[t][j] == wq[i]);
            assert(i == cache_row(c, l, t) + (off + j));
            if t < pos {
                assert(p[cache_row(c, l, t) + (off + j)] == q[cache_row(c, l, t) + (off + j)]);
            }
        }
        assert(rp[t] =~= rq[t]);
    }
    assert(rp =~= rq);
}

/// The heads give the same with the same rows.
proof fn same_heads<A: Fn(Scalar) -> u32>(
    a: A,
    c: Config,
    q: Seq<u32>,
    f: Flow,
    g: Flow,
    k: Seq<u32>,
    v: Seq<u32>,
    l: int,
    pos: int,
    n: int,
)
    requires
        c.valid(),
        flow_fits(c, f),
        flow_fits(c, g),
        k.len() == c.kv_dim_spec(),
        v.len() == c.kv_dim_spec(),
        0 <= l < c.n_layers,
        0 <= pos < c.seq_len,
        0 <= n <= c.n_heads,
        same_history(c, f.keys, g.keys, pos),
        same_history(c, f.values, g.values, pos),
    ensures
        ({
            let at = cache_row(c, l, pos);
            head_outputs(
                a,
                c,
                q,
                layer_cache(c, written(f.keys, at, k), l),
                layer_cache(c, written(f.values, at, v), l),
                pos,
                n,
            ) == head_outputs(
                a,
                c,
                q,
                layer_cache(c, written(g.keys, at, k), l),
                layer_cache(c, written(g.values, at, v), l),
                pos,
                n,
            )
        }),
    decreases n,
{
    if n > 0 {
        same_heads(a, c, q, f, g, k, v, l, pos, n - 1);
        let size = c.head_size_spec() as int;
        let mul = c.n_heads as int / c.n_kv_heads as int;
        let shared = (n - 1) / mul;
        heads_make_up_the_dimension(c);
        let (heads, kv_heads) = (c.n_heads as int, c.n_kv_heads as int);
        assert(mul > 0 && kv_heads * mul == heads) by (nonlinear_arith)
            requires
                heads > 0,
                kv_heads > 0,
                heads % kv_heads == 0,
                mul == heads / kv_heads,
        ;
        assert(0 <= shared < kv_heads) by (nonlinear_arith)
            requires
                mul > 0,
                1 <= n <= kv_heads * mul,
                shared == (n - 1) / mul,
        ;
        window_bounds(c.n_kv_heads as nat, shared, size as nat);
        same_rows(c, f.keys, g.keys, k, l, pos, shared * size, size);
        same_rows(c, f.values, g.values, v, l, pos, shared * size, size);
    }
}

/// The logits at a position depend on the token, on the position, and on the cached
/// positions before it, and on nothing else that the caches hold.
pub proof fn history_decides<A: Fn(Scalar) -> u32>(
    a: A,
    c: Config,
    w: ModelWeights<'_>,
    kernel: Kernel,
    pos: usize,
    f: Flow,
    g: Flow,
    n: int,
)
    requires
        c.valid(),
        pos < c.seq_len,
        0 <= n <= c.n_layers,
        flow_fits(c, f),
        flow_fits(c, g),
        f.x == g.x,
        same_history(c, f.keys, g.keys, pos as int),
        same_history(c, f.values, g.values, pos as int),
    ensures
        ({
            let after_f = after_layers(a, c, w, kernel, pos, f, n);
            let after_g = after_layers(a, c, w, kernel, pos, g, n);
            &&& after_f.x == after_g.x
            &&& logits_of(a, c, w, kernel, after_f.x) == logits_of(a, c, w, kernel, after_g.x)
            &&& flow_fits(c, after_f) && flow_fits(c, after_g)
            &&& same_history(c, after_f.keys, after_g.keys, pos as int)
            &&& same_history(c, after_f.values, after_g.values, pos as int)
        }),
    decreases n,
{
    if n > 0 {
        history_decides(a, c, w, kernel, pos, f, g, n - 1);
        let l = n - 1;
        let bf = after_layers(a, c, w, kernel, pos, f, l);
        let bg = after_layers(a, c, w, kernel, pos, g, l);
        let mf = after_attention(a, c, w, kernel, pos, l, bf);
        let mg = after_attention(a, c, w, kernel, pos, l, bg);
        let size = c.head_size_spec() as usize;
        let normed = rmsnorm_of(
            a,
            bf.x,
            window(w.rms_att_spec(), l, c.dim as int),
        );
        let q = rotated(
            a,
            w.projected(a, c, kernel, Proj::Wq, l, normed),
            pos,
            size,
        );
        let k = rotated(
            a,
            w.projected(a, c, kernel, Proj::Wk, l, normed),
            pos,
            size,
        );
        let v = w.projected(a, c, kernel, Proj::Wv, l, normed);
        projected_len(a, c, w, kernel, Proj::Wk, l, normed);
        projected_len(a, c, w, kernel, Proj::Wv, l, normed);
        same_heads(a, c, q, bf, bg, k, v, l, pos as int, c.n_heads as int);
        assert(mf.x == mg.x);
        history_stays(c, bf.keys, bg.keys, k, l, pos as int);
        history_stays(c, bf.values, bg.values, v, l, pos as int);
        row_bounds(c, l, pos as int);
    }
}

/// Writing the row of a position keeps the positions before it.
proof fn history_stays(c: Config, p: Seq<u32>, q: Seq<u32>, row: Seq<u32>, l: int, pos: int)
    requires
        p.len() == cache_len(c),
        q.len() == cache_len(c),
        row.len() == c.kv_dim_spec(),
        0 <= l < c.n_layers,
        0 <= pos < c.seq_len,
        same_history(c, p, q, pos),
    ensures
        same_history(
            c,
            written(p, cache_row(c, l, pos), row),
            written(q, cache_row(c, l, pos), row),
            pos,
        ),
{
    let at = cache_row(c, l, pos);
    let wp = written(p, at, row);
    let wq = written(q, at, row);
    row_bounds(c, l, pos);
    assert forall|m: int, t: int, j: int|
        #![trigger cache_row(c, m, t), wp[cache_row(c, m, t) + j]]
        0 <= m < c.n_layers && 0 <= t < pos && 0 <= j < c.kv_dim_spec() implies wp[cache_row(
        c,
        m,
        t,
    ) + j] == wq[cache_row(c, m, t) + j] by {
        row_bounds(c, m, t);
        let i = cache_row(c, m, t) + j;
        assert(p[cache_row(c, m, t) + j] == q[cache_row(c, m, t) + j]);
        if i < at {
        } else if i < at + row.len() {
        } else {
            assert(wp[i] == p[i]);
            assert(wq[i] == q[i]);
        }
    }
}

/// With quantized weights every kernel gives the same logits and the same caches.
pub proof fn quantized_kernels_agree<A: Fn(Scalar) -> u32>(
    a: A,
    c: Config,
    w: ModelWeights<'_>,
    first: Kernel,
    second: Kernel,
    pos: usize,
    f: Flow,
    n: int,
)
    requires
        w is Q8,
    ensures
        after_layers(a, c, w, first, pos, f, n) == after_layers(a, c, w, second, pos, f, n),
        logits_of(a, c, w, first, after_layers(a, c, w, first, pos, f, n).x) == logits_of(
            a,
            c,
            w,
            second,
            after_layers(a, c, w, second, pos, f, n).x,
        ),
    decreases n,
{
    assert forall|p: Proj, l: int, x: Seq<u32>| #[trigger]
        w.projected(a, c, first, p, l, x) == w.projected(a, c, second, p, l, x) by {}
    if n > 0 {
        quantized_kernels_agree(a, c, w, first, second, pos, f, n - 1);
    }
}

/// A carved state is ready.
pub proof fn carved_states_are_ready(s: RunState<'_, u32>, c: Config)
    requires
        forall|i: int| 0 <= i < 10 ==> (#[trigger] s.buffers()[i]).len() == state_lens(c)[i],
    ensures
        state_ready(s, c),
{
    let b = s.buffers();
    let lens = state_lens(c);
    assert(b[0].len() == lens[0] && b[1].len() == lens[1] && b[2].len() == lens[2] && b[3].len()
        == lens[3] && b[4].len() == lens[4]);
    assert(b[5].len() == lens[5] && b[6].len() == lens[6] && b[7].len() == lens[7] && b[8].len()
        == lens[8] && b[9].len() == lens[9]);
}

/// Whether quantized weights are views of two flat buffers of bit patterns.
pub open spec fn views_buffers(
    w: QuantizedWeights<'_, u32>,
    c: Config,
    data: Seq<i8>,
    scales: Seq<u32>,
    group_size: nat,
) -> bool {
    views_parts(w, c, data, scales, group_size)
}

/// Views of quantized buffers fit the config, where the groups fit the rows.
pub proof fn quantized_weights_fit(
    w: QuantizedWeights<'_, u32>,
    c: Config,
    data: Seq<i8>,
    scales: Seq<u32>,
    group_size: usize,
)
    requires
        groups_fit_rows(c, group_size),
        views_buffers(w, c, data, scales, group_size as nat),
        w.rms_att@.len() == c.n_layers as nat * c.dim as nat,
        w.rms_ffn@.len() == c.n_layers as nat * c.dim as nat,
        w.rms_final@.len() == c.dim,
    ensures
        ModelWeights::Q8(w).fits(c),
{
    let lens = quantized_lens(c);
    let gs = group_size as nat;
    let l = c.n_layers as nat;
    let d = c.dim as nat;
    let h = c.hidden_dim as nat;
    let a = c.att_dim_spec();
    let k = c.kv_dim_spec();
    let v = c.vocab_size as nat;
    assert(l * d * a == l * (a * d)) by (nonlinear_arith);
    assert(l * d * k == l * (k * d)) by (nonlinear_arith);
    assert(l * a * d == l * (d * a)) by (nonlinear_arith);
    assert(l * h * d == l * (h * d)) by (nonlinear_arith);
    assert(l * d * h == l * (d * h)) by (nonlinear_arith);
    assert(1 * (v * d) == v * d) by (nonlinear_arith);
    assert forall|i: int| 0 <= i < 9 implies (#[trigger] part(data, lens, i)).len() == lens[i]
        && part(scales, group_lens(lens, gs), i).len() == lens[i] / gs by {
        quantized_part_lengths(data, scales, lens, gs, i);
    }
    assert forall|p: Proj|
        tensor_shaped(#[trigger] q8_proj(w, p), p.layers(c) * p.size(c), w.wq.group_size) by {
        match p {
            Proj::Wq => assert(part(data, lens, 1).len() == lens[1]),
            Proj::Wk => assert(part(data, lens, 2).len() == lens[2]),
            Proj::Wv => assert(part(data, lens, 3).len() == lens[3]),
            Proj::Wo => assert(part(data, lens, 4).len() == lens[4]),
            Proj::W1 => assert(part(data, lens, 5).len() == lens[5]),
            Proj::W2 => assert(part(data, lens, 6).len() == lens[6]),
            Proj::W3 => assert(part(data, lens, 7).len() == lens[7]),
            Proj::Wcls => {
                assert(part(data, lens, 0).len() == lens[0]);
                assert(part(data, lens, 8).len() == lens[8]);
            },
        }
    }
    assert(part(data, lens, 0).len() == lens[0]);
}

} // verus!
