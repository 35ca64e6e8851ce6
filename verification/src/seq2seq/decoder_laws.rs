//! What the passes of an encoder-decoder model promise: a decoder step changes the caches
//! at its own position only, its logits depend on the positions before it and on nothing
//! behind it, greedy decoding ends where the end token comes, and with quantized weights
//! every kernel gives the same.

use vstd::prelude::*;

use crate::layout::{window, window_bounds, written};
use crate::math::Kernel;
use crate::scalar::Scalar;
use crate::seq2seq::blocks::rows;
use crate::seq2seq::config::Config;
use crate::seq2seq::decoder::{
    after_decoder_layers, after_self, best, cache_holds, cache_row, decoder_ready, greedy,
    layer_block, stepped, stride, Flow,
};
use crate::seq2seq::memory::larger;
use crate::seq2seq::model::{
    after_encoder_layers, attention_rows, encoder_ready, feed_forward_rows, rows_made,
};
use crate::seq2seq::params::{
    classifier, decoder_kept_lengths, encoder_attention, encoder_feed_forward, kept_fits,
    self_attention, ModelWeights,
};
use crate::seq2seq::quantize::KeptWeights;
use crate::seq2seq::state::{state_lens, RunState};

verus! {

/// Row `t` of layer `l`'s block.
pub open spec fn cached(cache: Seq<u32>, c: Config, l: int, t: int) -> Seq<u32> {
    window(layer_block(cache, c, l), t, c.d_model as int)
}

/// Writing the row of a position changes that row only.
proof fn one_row_is_written(
    cache: Seq<u32>,
    c: Config,
    l: int,
    pos: int,
    row: Seq<u32>,
    m: int,
    t: int,
)
    requires
        c.dec_layers > 0,
        0 <= l < c.dec_layers,
        0 <= m < c.dec_layers,
        0 <= pos,
        0 <= t,
        row.len() == c.d_model,
        cache_holds(cache, c, (pos + 1) as nat),
        cache_holds(cache, c, (t + 1) as nat),
    ensures
        written(cache, cache_row(cache, c, l, pos), row).len() == cache.len(),
        cached(written(cache, cache_row(cache, c, l, pos), row), c, m, t) == (if m == l && t
            == pos {
            row
        } else {
            cached(cache, c, m, t)
        }),
{
    let n = stride(cache, c) as int;
    let d = c.d_model as int;
    let len = cache.len() as int;
    let layers = c.dec_layers as int;
    assert(layers * n == len) by (nonlinear_arith)
        requires
            layers > 0,
            len % layers == 0,
            n == len / layers,
    ;
    window_bounds(layers as nat, l, n as nat);
    window_bounds(layers as nat, m, n as nat);
    window_bounds((pos + 1) as nat, pos, d as nat);
    window_bounds((t + 1) as nat, t, d as nat);
    let at = cache_row(cache, c, l, pos);
    let after = written(cache, at, row);
    assert(m < l ==> m * n + n <= l * n) by (nonlinear_arith)
        requires
            n >= 0,
    ;
    assert(l < m ==> l * n + n <= m * n) by (nonlinear_arith)
        requires
            n >= 0,
    ;
    assert(t < pos ==> t * d + d <= pos * d) by (nonlinear_arith)
        requires
            d >= 0,
    ;
    assert(pos < t ==> pos * d + d <= t * d) by (nonlinear_arith)
        requires
            d >= 0,
    ;
    assert forall|j: int| 0 <= j < d implies #[trigger] cached(after, c, m, t)[j] == (if m == l
        && t == pos {
        row[j]
    } else {
        cached(cache, c, m, t)[j]
    }) by {
        let i = m * n + (t * d + j);
        assert(cached(after, c, m, t)[j] == after[i]);
        assert(cached(cache, c, m, t)[j] == cache[i]);
    }
    if m == l && t == pos {
        assert(cached(after, c, m, t) =~= row);
    } else {
        assert(cached(after, c, m, t) =~= cached(cache, c, m, t));
    }
}

/// Whether the caches hold `n` rows for every layer.
pub open spec fn flow_holds(c: Config, f: Flow, n: nat) -> bool {
    cache_holds(f.keys, c, n) && cache_holds(f.values, c, n)
}

/// What a self-attention block writes into the caches are rows.
proof fn rows_are_written<A: Fn(Scalar) -> u32>(
    a: A,
    c: Config,
    w: ModelWeights<'_>,
    k: KeptWeights<'_, u32>,
    kernel: Kernel,
    l: int,
    x: Seq<u32>,
)
    requires
        kept_fits(k, c),
        0 <= l < c.dec_layers,
    ensures
        self_attention(w, k, c, l).k.made(a, kernel, x).len() == c.d_model,
        self_attention(w, k, c, l).v.made(a, kernel, x).len() == c.d_model,
{
    decoder_kept_lengths(k, c);
    window_bounds(c.dec_layers as nat, l, c.d_model as nat);
}

/// A decoder step changes the caches at its own position only: every other row stays.
pub proof fn a_step_changes_its_position_only<A: Fn(Scalar) -> u32>(
    a: A,
    c: Config,
    w: ModelWeights<'_>,
    k: KeptWeights<'_, u32>,
    kernel: Kernel,
    pos: int,
    src_len: nat,
    cross_k: Seq<u32>,
    cross_v: Seq<u32>,
    f: Flow,
    n: int,
    m: int,
    t: int,
)
    requires
        c.valid(),
        kept_fits(k, c),
        0 <= n <= c.dec_layers,
        0 <= m < c.dec_layers,
        0 <= pos,
        0 <= t,
        t != pos,
        flow_holds(c, f, (pos + 1) as nat),
        flow_holds(c, f, (t + 1) as nat),
    ensures
        ({
            let after = after_decoder_layers(
                a,
                c,
                w,
                k,
                kernel,
                pos,
                src_len,
                cross_k,
                cross_v,
                f,
                n,
            );
            &&& after.keys.len() == f.keys.len()
            &&& after.values.len() == f.values.len()
            &&& cached(after.keys, c, m, t) == cached(f.keys, c, m, t)
            &&& cached(after.values, c, m, t) == cached(f.values, c, m, t)
        }),
    decreases n,
{
    if n > 0 {
        let l = n - 1;
        a_step_changes_its_position_only(
            a,
            c,
            w,
            k,
            kernel,
            pos,
            src_len,
            cross_k,
            cross_v,
            f,
            l,
            m,
            t,
        );
        let before = after_decoder_layers(
            a,
            c,
            w,
            k,
            kernel,
            pos,
            src_len,
            cross_k,
            cross_v,
            f,
            l,
        );
        let block = self_attention(w, k, c, l);
        rows_are_written(a, c, w, k, kernel, l, before.x);
        one_row_is_written(before.keys, c, l, pos, block.k.made(a, kernel, before.x), m, t);
        one_row_is_written(before.values, c, l, pos, block.v.made(a, kernel, before.x), m, t);
    }
}

/// Whether two caches hold the same in the positions before `pos` of every layer.
pub open spec fn same_history(c: Config, p: Seq<u32>, q: Seq<u32>, pos: int) -> bool {
    &&& p.len() == q.len()
    &&& forall|l: int, t: int|
        0 <= l < c.dec_layers && 0 <= t < pos ==> #[trigger] cached(p, c, l, t) == cached(
            q,
            c,
            l,
            t,
        )
}

/// Writing the same row keeps what two caches have in common, and makes them agree on this
/// position too.
proof fn history_grows(c: Config, p: Seq<u32>, q: Seq<u32>, row: Seq<u32>, l: int, pos: int)
    requires
        c.dec_layers > 0,
        0 <= l < c.dec_layers,
        0 <= pos,
        row.len() == c.d_model,
        cache_holds(p, c, (pos + 1) as nat),
        same_history(c, p, q, pos),
    ensures
        ({
            let at = cache_row(p, c, l, pos);
            let (wp, wq) = (written(p, at, row), written(q, at, row));
            let n = (pos + 1) as nat;
            &&& same_history(c, wp, wq, pos)
            &&& wp.len() == p.len()
            &&& rows(layer_block(wp, c, l), c.d_model as nat, n) == rows(
                layer_block(wq, c, l),
                c.d_model as nat,
                n,
            )
        }),
{
    let at = cache_row(p, c, l, pos);
    let (wp, wq) = (written(p, at, row), written(q, at, row));
    let d = c.d_model as nat;
    let n = (pos + 1) as nat;
    assert forall|m: int, t: int| 0 <= m < c.dec_layers && 0 <= t < pos implies #[trigger] cached(
        wp,
        c,
        m,
        t,
    ) == cached(wq, c, m, t) by {
        assert((t + 1) * d <= n * d) by (nonlinear_arith)
            requires
                t + 1 <= n,
                d >= 0,
        ;
        one_row_is_written(p, c, l, pos, row, m, t);
        one_row_is_written(q, c, l, pos, row, m, t);
        assert(cached(p, c, m, t) == cached(q, c, m, t));
    }
    one_row_is_written(p, c, l, pos, row, l, pos);
    one_row_is_written(q, c, l, pos, row, l, pos);
    let rp = rows(layer_block(wp, c, l), d, n);
    let rq = rows(layer_block(wq, c, l), d, n);
    assert forall|t: int| 0 <= t < n implies #[trigger] rp[t] == rq[t] by {
        assert(rp[t] == cached(wp, c, l, t));
        assert(rq[t] == cached(wq, c, l, t));
    }
    assert(rp =~= rq);
}

/// The logits of a step depend on the token, on the position, on the source, and on the
/// cached positions before it, and on nothing else that the caches hold.
pub proof fn history_decides<A: Fn(Scalar) -> u32>(
    a: A,
    c: Config,
    w: ModelWeights<'_>,
    k: KeptWeights<'_, u32>,
    kernel: Kernel,
    pos: int,
    src_len: nat,
    cross_k: Seq<u32>,
    cross_v: Seq<u32>,
    f: Flow,
    g: Flow,
    n: int,
)
    requires
        c.valid(),
        kept_fits(k, c),
        0 <= n <= c.dec_layers,
        0 <= pos,
        flow_holds(c, f, (pos + 1) as nat),
        f.x == g.x,
        same_history(c, f.keys, g.keys, pos),
        same_history(c, f.values, g.values, pos),
    ensures
        ({
            let p = after_decoder_layers(
                a,
                c,
                w,
                k,
                kernel,
                pos,
                src_len,
                cross_k,
                cross_v,
                f,
                n,
            );
            let q = after_decoder_layers(
                a,
                c,
                w,
                k,
                kernel,
                pos,
                src_len,
                cross_k,
                cross_v,
                g,
                n,
            );
            let head = classifier(w, k, c);
            &&& p.x == q.x
            &&& head.made(a, kernel, p.x) == head.made(a, kernel, q.x)
            &&& p.keys.len() == f.keys.len()
            &&& p.values.len() == f.values.len()
            &&& same_history(c, p.keys, q.keys, pos)
            &&& same_history(c, p.values, q.values, pos)
        }),
    decreases n,
{
    if n > 0 {
        let l = n - 1;
        history_decides(a, c, w, k, kernel, pos, src_len, cross_k, cross_v, f, g, l);
        let p = after_decoder_layers(
            a,
            c,
            w,
            k,
            kernel,
            pos,
            src_len,
            cross_k,
            cross_v,
            f,
            l,
        );
        let q = after_decoder_layers(
            a,
            c,
            w,
            k,
            kernel,
            pos,
            src_len,
            cross_k,
            cross_v,
            g,
            l,
        );
        let block = self_attention(w, k, c, l);
        rows_are_written(a, c, w, k, kernel, l, p.x);
        history_grows(c, p.keys, q.keys, block.k.made(a, kernel, p.x), l, pos);
        history_grows(c, p.values, q.values, block.v.made(a, kernel, p.x), l, pos);
        assert(after_self(a, c, kernel, block, l, pos, p).x == after_self(
            a,
            c,
            kernel,
            block,
            l,
            pos,
            q,
        ).x);
    }
}

/// Greedy decoding gives at most as many tokens as fit, and none of them is the end token.
pub proof fn greedy_stops_at_the_end<A: Fn(Scalar) -> u32>(
    a: A,
    c: Config,
    w: ModelWeights<'_>,
    k: KeptWeights<'_, u32>,
    kernel: Kernel,
    src_len: nat,
    cross_k: Seq<u32>,
    cross_v: Seq<u32>,
    token: int,
    pos: int,
    keys: Seq<u32>,
    values: Seq<u32>,
    most: int,
)
    requires
        pos <= most,
    ensures
        ({
            let out = greedy(
                a,
                c,
                w,
                k,
                kernel,
                src_len,
                cross_k,
                cross_v,
                token,
                pos,
                keys,
                values,
                most,
            );
            &&& out.len() <= most - pos
            &&& forall|i: int| 0 <= i < out.len() ==> #[trigger] out[i] != c.eos_id
        }),
    decreases most - pos,
{
    if pos < most {
        let f = stepped(
            a,
            c,
            w,
            k,
            kernel,
            token,
            pos,
            src_len,
            cross_k,
            cross_v,
            keys,
            values,
        );
        let next = best(classifier(w, k, c).made(a, kernel, f.x));
        if next != c.eos_id {
            greedy_stops_at_the_end(
                a,
                c,
                w,
                k,
                kernel,
                src_len,
                cross_k,
                cross_v,
                next as int,
                pos + 1,
                f.keys,
                f.values,
                most,
            );
        }
    }
}

/// With quantized weights every kernel gives the same encoder output.
pub proof fn quantized_encoders_agree<A: Fn(Scalar) -> u32>(
    a: A,
    c: Config,
    w: ModelWeights<'_>,
    k: KeptWeights<'_, u32>,
    first: Kernel,
    second: Kernel,
    x: Seq<Seq<u32>>,
    n: int,
)
    requires
        w is Q8,
    ensures
        after_encoder_layers(a, c, w, k, first, x, n) == after_encoder_layers(
            a,
            c,
            w,
            k,
            second,
            x,
            n,
        ),
    decreases n,
{
    if n > 0 {
        quantized_encoders_agree(a, c, w, k, first, second, x, n - 1);
        let l = n - 1;
        let att = encoder_attention(w, k, c, l);
        let ffn = encoder_feed_forward(w, k, c, l);
        let (d, heads) = (c.d_model as nat, c.enc_heads as nat);
        assert forall|y: Seq<Seq<u32>>| #[trigger]
            attention_rows(a, first, att, y, d, heads) == attention_rows(
                a,
                second,
                att,
                y,
                d,
                heads,
            ) by {
            assert(rows_made(a, first, att.k, y) =~= rows_made(a, second, att.k, y));
            assert(rows_made(a, first, att.v, y) =~= rows_made(a, second, att.v, y));
            assert(attention_rows(a, first, att, y, d, heads) =~= attention_rows(
                a,
                second,
                att,
                y,
                d,
                heads,
            ));
        }
        assert forall|y: Seq<Seq<u32>>| #[trigger]
            feed_forward_rows(a, first, ffn, c.activation, y) == feed_forward_rows(
                a,
                second,
                ffn,
                c.activation,
                y,
            ) by {
            assert(feed_forward_rows(a, first, ffn, c.activation, y) =~= feed_forward_rows(
                a,
                second,
                ffn,
                c.activation,
                y,
            ));
        }
    }
}

/// With quantized weights every kernel gives the same decoder stream, caches and logits.
pub proof fn quantized_decoders_agree<A: Fn(Scalar) -> u32>(
    a: A,
    c: Config,
    w: ModelWeights<'_>,
    k: KeptWeights<'_, u32>,
    first: Kernel,
    second: Kernel,
    pos: int,
    src_len: nat,
    cross_k: Seq<u32>,
    cross_v: Seq<u32>,
    f: Flow,
    n: int,
)
    requires
        w is Q8,
    ensures
        ({
            let p = after_decoder_layers(
                a,
                c,
                w,
                k,
                first,
                pos,
                src_len,
                cross_k,
                cross_v,
                f,
                n,
            );
            &&& p == after_decoder_layers(
                a,
                c,
                w,
                k,
                second,
                pos,
                src_len,
                cross_k,
                cross_v,
                f,
                n,
            )
            &&& classifier(w, k, c).made(a, first, p.x) == classifier(w, k, c).made(a, second, p.x)
        }),
    decreases n,
{
    if n > 0 {
        quantized_decoders_agree(
            a,
            c,
            w,
            k,
            first,
            second,
            pos,
            src_len,
            cross_k,
            cross_v,
            f,
            n - 1,
        );
    }
}

/// A cache of so many rows per layer holds them.
proof fn caches_hold_their_rows(cache: Seq<u32>, c: Config, n: nat)
    requires
        c.dec_layers > 0,
        cache.len() == c.dec_layers as nat * n * c.d_model as nat,
    ensures
        cache_holds(cache, c, n),
{
    let (layers, d) = (c.dec_layers as nat, c.d_model as nat);
    let each = n * d;
    let len = cache.len();
    assert(layers * n * d == layers * each) by (nonlinear_arith)
        requires
            each == n * d,
    ;
    assert(len % layers == 0 && len / layers == each) by (nonlinear_arith)
        requires
            layers > 0,
            len == layers * each,
    ;
}

/// A state carved for a source and a target of some lengths is ready for them.
pub proof fn carved_states_are_ready(s: RunState<'_, u32>, c: Config, src_len: usize, tgt_len: usize)
    requires
        c.valid(),
        forall|i: int|
            0 <= i < 16 ==> (#[trigger] s.buffers()[i]).len() == state_lens(c, src_len, tgt_len)[i],
    ensures
        encoder_ready(s, c, src_len as nat),
        cache_holds(s.buffers()[5], c, src_len as nat),
        cache_holds(s.buffers()[6], c, src_len as nat),
        tgt_len > 0 ==> decoder_ready(s, c, (tgt_len - 1) as nat, src_len as nat),
{
    let b = s.buffers();
    let lens = state_lens(c, src_len, tgt_len);
    assert(b[0].len() == lens[0] && b[1].len() == lens[1] && b[2].len() == lens[2] && b[3].len()
        == lens[3] && b[4].len() == lens[4]);
    assert(b[5].len() == lens[5] && b[6].len() == lens[6] && b[7].len() == lens[7] && b[8].len()
        == lens[8] && b[9].len() == lens[9] && b[10].len() == lens[10]);
    assert(b[11].len() == lens[11] && b[12].len() == lens[12] && b[13].len() == lens[13]
        && b[14].len() == lens[14] && b[15].len() == lens[15]);
    caches_hold_their_rows(s.cross_k@, c, src_len as nat);
    caches_hold_their_rows(s.cross_v@, c, src_len as nat);
    caches_hold_their_rows(s.self_k@, c, tgt_len as nat);
    caches_hold_their_rows(s.self_v@, c, tgt_len as nat);
    let span = larger(src_len, tgt_len);
    let heads = c.dec_heads as nat;
    assert(span <= heads * span) by (nonlinear_arith)
        requires
            heads > 0,
    ;
}

} // verus!
