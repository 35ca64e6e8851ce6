//! The encoder of an encoder-decoder model.
//!
//! A token's embedding, scaled if the model asks for it, plus its position encoding; then
//! per layer self-attention over all positions, a residual and a norm behind it, and a
//! feed-forward block with a residual and a norm behind it.

use vstd::prelude::*;

use crate::kernels::{accumulate, layernorm};
#[allow(unused_imports)]
use crate::kernels::{added, layernorm_of};
#[allow(unused_imports)]
use crate::layout::{window_bounds, written};
use crate::math::Kernel;
use crate::quant::QuantScratch;
use crate::scalar::Scalar;
#[allow(unused_imports)]
use crate::scalar::is_arithmetic;
use crate::seq2seq::blocks::{activate, attend, embed_input};
#[allow(unused_imports)]
use crate::seq2seq::blocks::{
    all_activated, head_scale, heads_of, input_row, row_written, rows,
};
use crate::seq2seq::config::{Activation, Config};
use crate::seq2seq::matrix::{Linear, Norm};
#[allow(unused_imports)]
use crate::seq2seq::matrix::{room, LinearView, NormView};
use crate::seq2seq::params::{
    take_encoder_attention, take_encoder_feed_forward, Attention, FeedForward, ModelWeights,
};
#[allow(unused_imports)]
use crate::seq2seq::params::{
    encoder_attention, encoder_feed_forward, kept_fits, AttentionView, FeedForwardView,
};
use crate::seq2seq::quantize::KeptWeights;
use crate::seq2seq::state::RunState;

verus! {

/// A row made from a row, for every row.
pub open spec fn rows_made<A: Fn(Scalar) -> u32>(
    a: A,
    kernel: Kernel,
    lin: LinearView,
    x: Seq<Seq<u32>>,
) -> Seq<Seq<u32>> {
    Seq::new(x.len(), |t: int| lin.made(a, kernel, x[t]))
}

/// Apply a linear layer to every row.
pub fn project_rows<A: Fn(Scalar) -> u32>(
    dst: &mut [u32],
    src: &[u32],
    lin: &Linear<'_>,
    d: usize,
    n: usize,
    kernel: Kernel,
    qs: &mut Option<QuantScratch<'_, u32>>,
    a: &A,
)
    requires
        is_arithmetic(*a),
        n * d <= old(dst)@.len(),
        n * d <= src@.len(),
        lin@.shaped(d as nat, d as nat),
        lin@.m.room_enough(d as nat, room(*old(qs))),
    ensures
        final(dst)@.len() == old(dst)@.len(),
        rows(final(dst)@, d as nat, n as nat) == rows_made(
            *a,
            kernel,
            lin@,
            rows(src@, d as nat, n as nat),
        ),
        final(dst)@.skip(n * d) == old(dst)@.skip(n * d),
        room(*final(qs)) == room(*old(qs)),
{
    let ghost made = rows_made(*a, kernel, lin@, rows(src@, d as nat, n as nat));
    proof {
        assert(dst.len() == dst@.len());
    }
    let mut t: usize = 0;
    while t < n
        invariant
            t <= n,
            is_arithmetic(*a),
            dst@.len() == old(dst)@.len(),
            n * d <= dst@.len(),
            dst@.len() <= usize::MAX,
            dst@.skip(n * d) == old(dst)@.skip(n * d),
            n * d <= src@.len(),
            lin@.shaped(d as nat, d as nat),
            lin@.m.room_enough(d as nat, room(*qs)),
            room(*qs) == room(*old(qs)),
            made == rows_made(*a, kernel, lin@, rows(src@, d as nat, n as nat)),
            forall|k: int| 0 <= k < t ==> #[trigger] rows(dst@, d as nat, n as nat)[k] == made[k],
        decreases n - t,
    {
        proof {
            window_bounds(n as nat, t as int, d as nat);
        }
        let base: usize = t * d;
        let ghost before = dst@;
        let x = vstd::slice::slice_subrange(src, base, base + d);
        let (_, tail) = dst.split_at_mut(base);
        let (row, _) = tail.split_at_mut(d);
        lin.apply(row, x, kernel, qs, a);
        proof {
            assert(x@ =~= rows(src@, d as nat, n as nat)[t as int]);
            assert(dst@ =~= written(before, t * d, made[t as int]));
            row_written(before, dst@, made[t as int], d as nat, n as nat, t as int);
        }
        t = t + 1;
    }
    proof {
        assert(rows(dst@, d as nat, n as nat) =~= made);
    }
}

/// The attention output of every position.
pub open spec fn attention_rows<A: Fn(Scalar) -> u32>(
    a: A,
    kernel: Kernel,
    block: AttentionView,
    x: Seq<Seq<u32>>,
    d: nat,
    heads: nat,
) -> Seq<Seq<u32>> {
    let size = d / heads;
    let k = rows_made(a, kernel, block.k, x);
    let v = rows_made(a, kernel, block.v, x);
    Seq::new(
        x.len(),
        |t: int|
            {
                let q = block.q.made(a, kernel, x[t]);
                let attended = heads_of(
                    a,
                    q,
                    k,
                    v,
                    size,
                    head_scale(a, size as usize),
                    heads as int,
                );
                block.o.made(a, kernel, attended)
            },
    )
}

/// Compute the attention output of every position into `sub`.
fn attention_sublayer<A: Fn(Scalar) -> u32>(
    block: &Attention<'_>,
    x: &[u32],
    sub: &mut [u32],
    k: &mut [u32],
    v: &mut [u32],
    q: &mut [u32],
    attn: &mut [u32],
    scores: &mut [u32],
    d: usize,
    heads: usize,
    n: usize,
    kernel: Kernel,
    qs: &mut Option<QuantScratch<'_, u32>>,
    a: &A,
)
    requires
        is_arithmetic(*a),
        heads > 0,
        d % heads == 0,
        block@.shaped(d as nat),
        block@.room_enough(d as nat, room(*old(qs))),
        n * d <= x@.len(),
        n * d <= old(sub)@.len(),
        n * d <= old(k)@.len(),
        n * d <= old(v)@.len(),
        old(q)@.len() == d,
        old(attn)@.len() == d,
        n <= old(scores)@.len(),
    ensures
        rows(final(sub)@, d as nat, n as nat) == attention_rows(
            *a,
            kernel,
            block@,
            rows(x@, d as nat, n as nat),
            d as nat,
            heads as nat,
        ),
        final(sub)@.len() == old(sub)@.len(),
        final(k)@.len() == old(k)@.len(),
        final(v)@.len() == old(v)@.len(),
        final(q)@.len() == d,
        final(attn)@.len() == d,
        final(scores)@.len() == old(scores)@.len(),
        room(*final(qs)) == room(*old(qs)),
{
    let ghost xs = rows(x@, d as nat, n as nat);
    let ghost made = attention_rows(*a, kernel, block@, xs, d as nat, heads as nat);
    project_rows(k, x, &block.k, d, n, kernel, qs, a);
    project_rows(v, x, &block.v, d, n, kernel, qs, a);
    proof {
        assert(sub.len() == sub@.len());
    }
    let mut t: usize = 0;
    while t < n
        invariant
            t <= n,
            is_arithmetic(*a),
            heads > 0,
            d % heads == 0,
            block@.shaped(d as nat),
            block@.room_enough(d as nat, room(*qs)),
            room(*qs) == room(*old(qs)),
            n * d <= x@.len(),
            n * d <= sub@.len(),
            sub@.len() == old(sub)@.len(),
            sub@.len() <= usize::MAX,
            n * d <= k@.len(),
            n * d <= v@.len(),
            q@.len() == d,
            attn@.len() == d,
            n <= scores@.len(),
            scores@.len() == old(scores)@.len(),
            xs == rows(x@, d as nat, n as nat),
            made == attention_rows(*a, kernel, block@, xs, d as nat, heads as nat),
            rows(k@, d as nat, n as nat) == rows_made(*a, kernel, block.k@, xs),
            rows(v@, d as nat, n as nat) == rows_made(*a, kernel, block.v@, xs),
            forall|i: int| 0 <= i < t ==> #[trigger] rows(sub@, d as nat, n as nat)[i] == made[i],
        decreases n - t,
    {
        proof {
            window_bounds(n as nat, t as int, d as nat);
        }
        let base: usize = t * d;
        let ghost before = sub@;
        let row = vstd::slice::slice_subrange(x, base, base + d);
        proof {
            assert(row@ =~= xs[t as int]);
        }
        block.q.apply(q, row, kernel, qs, a);
        attend(attn, q, k, v, scores, d, heads, n, a);
        let (_, tail) = sub.split_at_mut(base);
        let (out, _) = tail.split_at_mut(d);
        block.o.apply(out, attn, kernel, qs, a);
        proof {
            assert(sub@ =~= written(before, t * d, made[t as int]));
            row_written(before, sub@, made[t as int], d as nat, n as nat, t as int);
        }
        t = t + 1;
    }
    proof {
        assert(rows(sub@, d as nat, n as nat) =~= made);
    }
}

/// Every row behind its residual and norm.
pub open spec fn normed_rows<A: Fn(Scalar) -> u32>(
    a: A,
    sub: Seq<Seq<u32>>,
    x: Seq<Seq<u32>>,
    ln: NormView,
) -> Seq<Seq<u32>> {
    Seq::new(x.len(), |t: int| layernorm_of(a, added(a, sub[t], x[t]), ln.w, ln.b))
}

/// Add the residual to every row of `sub` and norm it back into `x`.
fn residual_norm<A: Fn(Scalar) -> u32>(
    x: &mut [u32],
    sub: &mut [u32],
    ln: &Norm<'_>,
    d: usize,
    n: usize,
    a: &A,
)
    requires
        is_arithmetic(*a),
        n * d <= old(x)@.len(),
        n * d <= old(sub)@.len(),
        ln@.shaped(d as nat),
    ensures
        rows(final(x)@, d as nat, n as nat) == normed_rows(
            *a,
            rows(old(sub)@, d as nat, n as nat),
            rows(old(x)@, d as nat, n as nat),
            ln@,
        ),
        final(x)@.len() == old(x)@.len(),
        final(x)@.skip(n * d) == old(x)@.skip(n * d),
        final(sub)@.len() == old(sub)@.len(),
{
    let ghost xs = rows(x@, d as nat, n as nat);
    let ghost subs = rows(sub@, d as nat, n as nat);
    let ghost made = normed_rows(*a, subs, xs, ln@);
    proof {
        assert(x.len() == x@.len() && sub.len() == sub@.len());
        assert forall|i: int| 0 <= i < n implies (#[trigger] xs[i]).len() == d by {
            window_bounds(n as nat, i, d as nat);
        }
    }
    let mut t: usize = 0;
    while t < n
        invariant
            t <= n,
            is_arithmetic(*a),
            n * d <= x@.len(),
            n * d <= sub@.len(),
            x@.len() == old(x)@.len(),
            sub@.len() == old(sub)@.len(),
            x@.len() <= usize::MAX,
            x@.skip(n * d) == old(x)@.skip(n * d),
            ln@.shaped(d as nat),
            xs.len() == n,
            subs.len() == n,
            made == normed_rows(*a, subs, xs, ln@),
            forall|i: int| 0 <= i < n ==> (#[trigger] xs[i]).len() == d,
            forall|i: int| 0 <= i < t ==> #[trigger] rows(x@, d as nat, n as nat)[i] == made[i],
            forall|i: int| t <= i < n ==> #[trigger] rows(x@, d as nat, n as nat)[i] == xs[i],
            forall|i: int| t <= i < n ==> #[trigger] rows(sub@, d as nat, n as nat)[i] == subs[i],
        decreases n - t,
    {
        proof {
            window_bounds(n as nat, t as int, d as nat);
        }
        let base: usize = t * d;
        let ghost x_before = x@;
        let ghost sub_before = sub@;
        let (_, x_tail) = x.split_at_mut(base);
        let (row, _) = x_tail.split_at_mut(d);
        let (_, sub_tail) = sub.split_at_mut(base);
        let (out, _) = sub_tail.split_at_mut(d);
        proof {
            assert(rows(x_before, d as nat, n as nat)[t as int] == xs[t as int]);
            assert(rows(sub_before, d as nat, n as nat)[t as int] == subs[t as int]);
            assert(row@ =~= xs[t as int]);
            assert(out@ =~= subs[t as int]);
        }
        accumulate(out, row, a);
        layernorm(row, out, ln.w, ln.b, a);
        let ghost summed = added(*a, subs[t as int], xs[t as int]);
        proof {
            assert(x@ =~= written(x_before, t * d, made[t as int]));
            assert(sub@ =~= written(sub_before, t * d, summed));
            row_written(x_before, x@, made[t as int], d as nat, n as nat, t as int);
            row_written(sub_before, sub@, summed, d as nat, n as nat, t as int);
        }
        t = t + 1;
    }
    proof {
        assert(rows(x@, d as nat, n as nat) =~= made);
    }
}

/// What a feed-forward block makes of a row.
pub open spec fn fed_forward<A: Fn(Scalar) -> u32>(
    a: A,
    kernel: Kernel,
    block: FeedForwardView,
    act: Activation,
    x: Seq<u32>,
) -> Seq<u32> {
    block.down.made(a, kernel, all_activated(a, act, block.up.made(a, kernel, x)))
}

/// Apply a feed-forward block to a row; `hidden` holds at least the block's hidden length.
pub fn feed_forward<A: Fn(Scalar) -> u32>(
    block: &FeedForward<'_>,
    act: Activation,
    x: &[u32],
    out: &mut [u32],
    hidden: &mut [u32],
    ffn: usize,
    kernel: Kernel,
    qs: &mut Option<QuantScratch<'_, u32>>,
    a: &A,
)
    requires
        is_arithmetic(*a),
        block@.shaped(x@.len(), ffn as nat),
        block@.room_enough(x@.len(), ffn as nat, room(*old(qs))),
        old(out)@.len() == x@.len(),
        ffn <= old(hidden)@.len(),
    ensures
        final(out)@ == fed_forward(*a, kernel, block@, act, x@),
        final(out)@.len() == x@.len(),
        final(hidden)@.len() == old(hidden)@.len(),
        room(*final(qs)) == room(*old(qs)),
{
    let (up, _) = hidden.split_at_mut(ffn);
    block.up.apply(up, x, kernel, qs, a);
    activate(up, act, a);
    block.down.apply(out, up, kernel, qs, a);
}

/// The feed-forward output of every position.
pub open spec fn feed_forward_rows<A: Fn(Scalar) -> u32>(
    a: A,
    kernel: Kernel,
    block: FeedForwardView,
    act: Activation,
    x: Seq<Seq<u32>>,
) -> Seq<Seq<u32>> {
    Seq::new(x.len(), |t: int| fed_forward(a, kernel, block, act, x[t]))
}

/// Compute the feed-forward output of every position into `sub`.
fn feed_forward_sublayer<A: Fn(Scalar) -> u32>(
    block: &FeedForward<'_>,
    act: Activation,
    x: &[u32],
    sub: &mut [u32],
    hidden: &mut [u32],
    d: usize,
    ffn: usize,
    n: usize,
    kernel: Kernel,
    qs: &mut Option<QuantScratch<'_, u32>>,
    a: &A,
)
    requires
        is_arithmetic(*a),
        block@.shaped(d as nat, ffn as nat),
        block@.room_enough(d as nat, ffn as nat, room(*old(qs))),
        n * d <= x@.len(),
        n * d <= old(sub)@.len(),
        ffn <= old(hidden)@.len(),
    ensures
        rows(final(sub)@, d as nat, n as nat) == feed_forward_rows(
            *a,
            kernel,
            block@,
            act,
            rows(x@, d as nat, n as nat),
        ),
        final(sub)@.len() == old(sub)@.len(),
        final(hidden)@.len() == old(hidden)@.len(),
        room(*final(qs)) == room(*old(qs)),
{
    let ghost xs = rows(x@, d as nat, n as nat);
    let ghost made = feed_forward_rows(*a, kernel, block@, act, xs);
    proof {
        assert(sub.len() == sub@.len());
    }
    let mut t: usize = 0;
    while t < n
        invariant
            t <= n,
            is_arithmetic(*a),
            block@.shaped(d as nat, ffn as nat),
            block@.room_enough(d as nat, ffn as nat, room(*qs)),
            room(*qs) == room(*old(qs)),
            n * d <= x@.len(),
            n * d <= sub@.len(),
            sub@.len() == old(sub)@.len(),
            sub@.len() <= usize::MAX,
            ffn <= hidden@.len(),
            hidden@.len() == old(hidden)@.len(),
            xs == rows(x@, d as nat, n as nat),
            made == feed_forward_rows(*a, kernel, block@, act, xs),
            forall|i: int| 0 <= i < t ==> #[trigger] rows(sub@, d as nat, n as nat)[i] == made[i],
        decreases n - t,
    {
        proof {
            window_bounds(n as nat, t as int, d as nat);
        }
        let base: usize = t * d;
        let ghost before = sub@;
        let row = vstd::slice::slice_subrange(x, base, base + d);
        proof {
            assert(row@ =~= xs[t as int]);
        }
        let (_, tail) = sub.split_at_mut(base);
        let (out, _) = tail.split_at_mut(d);
        feed_forward(block, act, row, out, hidden, ffn, kernel, qs, a);
        proof {
            assert(sub@ =~= written(before, t * d, made[t as int]));
            row_written(before, sub@, made[t as int], d as nat, n as nat, t as int);
        }
        t = t + 1;
    }
    proof {
        assert(rows(sub@, d as nat, n as nat) =~= made);
    }
}

/// The rows after one encoder layer.
pub open spec fn after_encoder_layer<A: Fn(Scalar) -> u32>(
    a: A,
    c: Config,
    kernel: Kernel,
    att: AttentionView,
    ffn: FeedForwardView,
    x: Seq<Seq<u32>>,
) -> Seq<Seq<u32>> {
    let subs = attention_rows(a, kernel, att, x, c.d_model as nat, c.enc_heads as nat);
    let attended = normed_rows(a, subs, x, att.ln);
    normed_rows(
        a,
        feed_forward_rows(a, kernel, ffn, c.activation, attended),
        attended,
        ffn.ln,
    )
}

/// The rows after the first `n` encoder layers.
pub open spec fn after_encoder_layers<A: Fn(Scalar) -> u32>(
    a: A,
    c: Config,
    w: ModelWeights<'_>,
    k: KeptWeights<'_, u32>,
    kernel: Kernel,
    x: Seq<Seq<u32>>,
    n: int,
) -> Seq<Seq<u32>>
    decreases n,
{
    if n <= 0 {
        x
    } else {
        after_encoder_layer(
            a,
            c,
            kernel,
            encoder_attention(w, k, c, n - 1),
            encoder_feed_forward(w, k, c, n - 1),
            after_encoder_layers(a, c, w, k, kernel, x, n - 1),
        )
    }
}

/// The input of the encoder.
pub open spec fn source_rows<A: Fn(Scalar) -> u32>(
    a: A,
    c: Config,
    w: ModelWeights<'_>,
    tokens: Seq<usize>,
) -> Seq<Seq<u32>> {
    Seq::new(tokens.len(), |t: int| input_row(a, c, w, tokens[t] as int, t))
}

/// Write the input of the encoder into `x`.
fn embed_source<A: Fn(Scalar) -> u32>(
    c: &Config,
    w: &ModelWeights<'_>,
    tokens: &[usize],
    x: &mut [u32],
    norm: &mut [u32],
    a: &A,
)
    requires
        is_arithmetic(*a),
        w.fits(*c),
        forall|t: int| 0 <= t < tokens@.len() ==> #[trigger] tokens@[t] < c.vocab_size,
        tokens@.len() * c.d_model <= old(x)@.len(),
        old(norm)@.len() == c.d_model,
    ensures
        rows(final(x)@, c.d_model as nat, tokens@.len()) == source_rows(*a, *c, *w, tokens@),
        final(x)@.len() == old(x)@.len(),
        final(x)@.skip(tokens@.len() * c.d_model) == old(x)@.skip(tokens@.len() * c.d_model),
        final(norm)@.len() == c.d_model,
{
    let d: usize = c.d_model;
    let n: usize = tokens.len();
    let ghost made = source_rows(*a, *c, *w, tokens@);
    proof {
        assert(x.len() == x@.len());
    }
    let mut t: usize = 0;
    while t < n
        invariant
            t <= n,
            n == tokens@.len(),
            d == c.d_model,
            is_arithmetic(*a),
            w.fits(*c),
            forall|t: int| 0 <= t < tokens@.len() ==> #[trigger] tokens@[t] < c.vocab_size,
            n * d <= x@.len(),
            x@.len() == old(x)@.len(),
            x@.len() <= usize::MAX,
            x@.skip(n * d) == old(x)@.skip(n * d),
            norm@.len() == d,
            made == source_rows(*a, *c, *w, tokens@),
            forall|i: int| 0 <= i < t ==> #[trigger] rows(x@, d as nat, n as nat)[i] == made[i],
        decreases n - t,
    {
        proof {
            window_bounds(n as nat, t as int, d as nat);
        }
        let base: usize = t * d;
        let ghost before = x@;
        let (_, tail) = x.split_at_mut(base);
        let (row, _) = tail.split_at_mut(d);
        embed_input(c, w, tokens[t], t, row, norm, a);
        proof {
            assert(x@ =~= written(before, t * d, made[t as int]));
            row_written(before, x@, made[t as int], d as nat, n as nat, t as int);
        }
        t = t + 1;
    }
    proof {
        assert(rows(x@, d as nat, n as nat) =~= made);
    }
}

/// Whether a run state has room for a source of `n` tokens.
pub open spec fn encoder_ready(s: RunState<'_, u32>, c: Config, n: nat) -> bool {
    let d = c.d_model as nat;
    &&& n * d <= s.enc_x@.len()
    &&& n * d <= s.enc_sub@.len()
    &&& n * d <= s.enc_k@.len()
    &&& n * d <= s.enc_v@.len()
    &&& n <= s.enc_scores@.len()
    &&& s.q@.len() == d
    &&& s.attn@.len() == d
    &&& s.norm@.len() == d
    &&& c.enc_ffn <= s.ffn@.len()
}

/// Whether a scratch is there for quantized activations.
pub open spec fn scratch_ready(w: ModelWeights<'_>, c: Config, room: int) -> bool {
    w is Q8 ==> c.d_model <= room && c.enc_ffn <= room && c.dec_ffn <= room
}

/// The output of the encoder.
pub open spec fn encoded<A: Fn(Scalar) -> u32>(
    a: A,
    c: Config,
    w: ModelWeights<'_>,
    k: KeptWeights<'_, u32>,
    kernel: Kernel,
    tokens: Seq<usize>,
) -> Seq<Seq<u32>> {
    after_encoder_layers(
        a,
        c,
        w,
        k,
        kernel,
        source_rows(a, c, w, tokens),
        c.enc_layers as int,
    )
}

/// Run the encoder over the source tokens. The output is left in the state's residual
/// stream, one row per token. The norms stand behind the blocks; there is no pass for
/// models with the norms before them.
pub fn encode<A: Fn(Scalar) -> u32>(
    c: &Config,
    w: &ModelWeights<'_>,
    k: &KeptWeights<'_, u32>,
    s: &mut RunState<'_, u32>,
    tokens: &[usize],
    kernel: Kernel,
    qs: &mut Option<QuantScratch<'_, u32>>,
    a: &A,
)
    requires
        is_arithmetic(*a),
        c.valid(),
        !c.norm_before,
        w.fits(*c),
        kept_fits(*k, *c),
        scratch_ready(*w, *c, room(*old(qs))),
        encoder_ready(*old(s), *c, tokens@.len()),
        forall|t: int| 0 <= t < tokens@.len() ==> #[trigger] tokens@[t] < c.vocab_size,
    ensures
        encoder_ready(*final(s), *c, tokens@.len()),
        rows(final(s).enc_x@, c.d_model as nat, tokens@.len()) == encoded(
            *a,
            *c,
            *w,
            *k,
            kernel,
            tokens@,
        ),
        final(s).enc_x@.len() == old(s).enc_x@.len(),
        final(s).enc_x@.skip(tokens@.len() * c.d_model) == old(s).enc_x@.skip(
            tokens@.len() * c.d_model,
        ),
        final(s).ffn@.len() == old(s).ffn@.len(),
        final(s).cross_k@ == old(s).cross_k@,
        final(s).cross_v@ == old(s).cross_v@,
        final(s).self_k@ == old(s).self_k@,
        final(s).self_v@ == old(s).self_v@,
        final(s).x@ == old(s).x@,
        final(s).scores@ == old(s).scores@,
        final(s).logits@ == old(s).logits@,
        room(*final(qs)) == room(*old(qs)),
{
    let d: usize = c.d_model;
    let n: usize = tokens.len();
    let ghost source = source_rows(*a, *c, *w, tokens@);
    embed_source(c, w, tokens, s.enc_x, s.norm, a);
    let mut l: usize = 0;
    while l < c.enc_layers
        invariant
            l <= c.enc_layers,
            n == tokens@.len(),
            d == c.d_model,
            is_arithmetic(*a),
            c.valid(),
            w.fits(*c),
            kept_fits(*k, *c),
            scratch_ready(*w, *c, room(*qs)),
            room(*qs) == room(*old(qs)),
            encoder_ready(*s, *c, n as nat),
            s.enc_x@.len() == old(s).enc_x@.len(),
            s.enc_x@.skip(n * d) == old(s).enc_x@.skip(n * d),
            s.ffn@.len() == old(s).ffn@.len(),
            s.cross_k@ == old(s).cross_k@,
            s.cross_v@ == old(s).cross_v@,
            s.self_k@ == old(s).self_k@,
            s.self_v@ == old(s).self_v@,
            s.x@ == old(s).x@,
            s.scores@ == old(s).scores@,
            s.logits@ == old(s).logits@,
            rows(s.enc_x@, d as nat, n as nat) == after_encoder_layers(
                *a,
                *c,
                *w,
                *k,
                kernel,
                source,
                l as int,
            ),
        decreases c.enc_layers - l,
    {
        let att = take_encoder_attention(w, k, c, l);
        let ffn = take_encoder_feed_forward(w, k, c, l);
        attention_sublayer(
            &att,
            s.enc_x,
            s.enc_sub,
            s.enc_k,
            s.enc_v,
            s.q,
            s.attn,
            s.enc_scores,
            d,
            c.enc_heads,
            n,
            kernel,
            qs,
            a,
        );
        residual_norm(s.enc_x, s.enc_sub, &att.ln, d, n, a);
        feed_forward_sublayer(
            &ffn,
            c.activation,
            s.enc_x,
            s.enc_sub,
            s.ffn,
            d,
            c.enc_ffn,
            n,
            kernel,
            qs,
            a,
        );
        residual_norm(s.enc_x, s.enc_sub, &ffn.ln, d, n, a);
        l = l + 1;
    }
}

} // verus!
