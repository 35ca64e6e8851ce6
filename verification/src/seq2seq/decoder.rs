//! The decoder of an encoder-decoder model: one token in, a row of logits out.
//!
//! The keys and values of the encoder's output are projected once per source. A step then
//! runs per layer self-attention over the target so far, whose keys and values are cached,
//! cross-attention over the source, and a feed-forward block, each with a residual and a
//! norm behind it. The classifier is the embedding with a bias of its own.

use vstd::prelude::*;

use crate::kernels::{accumulate, layernorm};
#[allow(unused_imports)]
use crate::kernels::{added, layernorm_of};
#[allow(unused_imports)]
use crate::layout::{window, window_bounds, written};
use crate::math::Kernel;
use crate::order::argmax;
#[allow(unused_imports)]
use crate::order::{argmax_is_unique, is_argmax};
use crate::quant::QuantScratch;
use crate::scalar::Scalar;
#[allow(unused_imports)]
use crate::scalar::is_arithmetic;
use crate::seq2seq::blocks::{attend, embed_input};
#[allow(unused_imports)]
use crate::seq2seq::blocks::{head_scale, heads_of, input_row, rows};
use crate::seq2seq::config::Config;
use crate::seq2seq::matrix::Linear;
#[allow(unused_imports)]
use crate::seq2seq::matrix::room;
use crate::seq2seq::model::{encode, feed_forward, project_rows};
#[allow(unused_imports)]
use crate::seq2seq::model::{encoded, encoder_ready, fed_forward, rows_made, scratch_ready};
use crate::seq2seq::params::{
    take_classifier, take_cross_attention, take_decoder_feed_forward, take_self_attention,
    Attention, ModelWeights,
};
#[allow(unused_imports)]
use crate::seq2seq::params::{
    classifier, cross_attention, decoder_feed_forward, kept_fits, self_attention, AttentionView,
    FeedForwardView,
};
use crate::seq2seq::quantize::KeptWeights;
use crate::seq2seq::state::RunState;

verus! {

/// Elements of one layer's block in a cache.
pub open spec fn stride(cache: Seq<u32>, c: Config) -> nat {
    cache.len() / c.dec_layers as nat
}

/// Layer `l`'s block of a cache.
pub open spec fn layer_block(cache: Seq<u32>, c: Config, l: int) -> Seq<u32> {
    window(cache, l, stride(cache, c) as int)
}

/// Whether a cache holds a block of at least `n` rows for every decoder layer.
pub open spec fn cache_holds(cache: Seq<u32>, c: Config, n: nat) -> bool {
    cache.len() % c.dec_layers as nat == 0 && n * c.d_model as nat <= stride(cache, c)
}

/// The blocks make up the cache.
proof fn blocks_make_up_the_cache(cache: Seq<u32>, c: Config, l: int)
    requires
        c.dec_layers > 0,
        cache.len() % c.dec_layers as nat == 0,
        0 <= l < c.dec_layers,
    ensures
        0 <= l * stride(cache, c),
        l * stride(cache, c) + stride(cache, c) <= cache.len(),
{
    let n = c.dec_layers as nat;
    let len = cache.len();
    let each = stride(cache, c);
    assert(n * each == len) by (nonlinear_arith)
        requires
            n > 0,
            len % n == 0,
            each == len / n,
    ;
    window_bounds(n, l, each);
}

/// Writing into one block leaves the others.
proof fn other_blocks_stay(before: Seq<u32>, after: Seq<u32>, c: Config, l: int, m: int)
    requires
        c.dec_layers > 0,
        before.len() % c.dec_layers as nat == 0,
        after.len() == before.len(),
        0 <= l < c.dec_layers,
        0 <= m < c.dec_layers,
        l != m,
        ({
            let at = l * stride(before, c);
            let end = at + stride(before, c);
            &&& after.take(at) == before.take(at)
            &&& after.skip(end) == before.skip(end)
        }),
    ensures
        layer_block(after, c, m) == layer_block(before, c, m),
{
    blocks_make_up_the_cache(before, c, l);
    blocks_make_up_the_cache(before, c, m);
    let n = stride(before, c) as int;
    let at = l * n;
    let end = at + n;
    let from = m * n;
    assert(m < l ==> from + n <= at) by (nonlinear_arith)
        requires
            n >= 0,
            from == m * n,
            at == l * n,
    ;
    assert(l < m ==> end <= from) by (nonlinear_arith)
        requires
            n >= 0,
            from == m * n,
            end == l * n + n,
    ;
    assert forall|i: int| from <= i < from + n implies #[trigger] after[i] == before[i] by {
        if m < l {
            assert(after[i] == after.take(at)[i]);
            assert(before[i] == before.take(at)[i]);
        } else {
            assert(after[i] == after.skip(end)[i - end]);
            assert(before[i] == before.skip(end)[i - end]);
        }
    }
    assert(layer_block(after, c, m) =~= layer_block(before, c, m));
}

/// Project every row of `src` into layer `l`'s block of `cache`.
fn fill_block<A: Fn(Scalar) -> u32>(
    cache: &mut [u32],
    src: &[u32],
    lin: &Linear<'_>,
    c: &Config,
    l: usize,
    n: usize,
    kernel: Kernel,
    qs: &mut Option<QuantScratch<'_, u32>>,
    a: &A,
)
    requires
        is_arithmetic(*a),
        c.dec_layers > 0,
        l < c.dec_layers,
        cache_holds(old(cache)@, *c, n as nat),
        n * c.d_model <= src@.len(),
        lin@.shaped(c.d_model as nat, c.d_model as nat),
        lin@.m.room_enough(c.d_model as nat, room(*old(qs))),
    ensures
        final(cache)@.len() == old(cache)@.len(),
        rows(layer_block(final(cache)@, *c, l as int), c.d_model as nat, n as nat) == rows_made(
            *a,
            kernel,
            lin@,
            rows(src@, c.d_model as nat, n as nat),
        ),
        forall|m: int|
            0 <= m < c.dec_layers && m != l ==> #[trigger] layer_block(final(cache)@, *c, m)
                == layer_block(old(cache)@, *c, m),
        room(*final(qs)) == room(*old(qs)),
{
    let ghost before = cache@;
    proof {
        blocks_make_up_the_cache(before, *c, l as int);
        assert(cache.len() == cache@.len());
    }
    let each: usize = cache.len() / c.dec_layers;
    let at: usize = l * each;
    let (_, tail) = cache.split_at_mut(at);
    let (block, _) = tail.split_at_mut(each);
    project_rows(block, src, lin, c.d_model, n, kernel, qs, a);
    let ghost filled = block@;
    proof {
        assert(cache@ =~= written(before, at as int, filled));
        assert(layer_block(cache@, *c, l as int) =~= filled);
        assert(cache@.take(at as int) =~= before.take(at as int));
        assert(cache@.skip(at + each) =~= before.skip(at + each));
        assert forall|m: int| 0 <= m < c.dec_layers && m != l implies #[trigger] layer_block(
            cache@,
            *c,
            m,
        ) == layer_block(before, *c, m) by {
            other_blocks_stay(before, cache@, *c, l as int, m);
        }
    }
}

/// Whether a cache holds what a projection of each decoder layer makes of the source.
pub open spec fn holds_keys<A: Fn(Scalar) -> u32>(
    a: A,
    c: Config,
    w: ModelWeights<'_>,
    k: KeptWeights<'_, u32>,
    kernel: Kernel,
    source: Seq<Seq<u32>>,
    cache: Seq<u32>,
    layers: int,
) -> bool {
    forall|l: int|
        0 <= l < layers ==> rows(#[trigger] layer_block(cache, c, l), c.d_model as nat, source.len())
            == rows_made(a, kernel, cross_attention(w, k, c, l).k, source)
}

/// Whether a cache holds what the value projection of each decoder layer makes of the
/// source.
pub open spec fn holds_values<A: Fn(Scalar) -> u32>(
    a: A,
    c: Config,
    w: ModelWeights<'_>,
    k: KeptWeights<'_, u32>,
    kernel: Kernel,
    source: Seq<Seq<u32>>,
    cache: Seq<u32>,
    layers: int,
) -> bool {
    forall|l: int|
        0 <= l < layers ==> rows(#[trigger] layer_block(cache, c, l), c.d_model as nat, source.len())
            == rows_made(a, kernel, cross_attention(w, k, c, l).v, source)
}

/// Project the encoder's output into the cross-attention caches of every decoder layer.
pub fn precompute_cross_kv<A: Fn(Scalar) -> u32>(
    c: &Config,
    w: &ModelWeights<'_>,
    k: &KeptWeights<'_, u32>,
    s: &mut RunState<'_, u32>,
    src_len: usize,
    kernel: Kernel,
    qs: &mut Option<QuantScratch<'_, u32>>,
    a: &A,
)
    requires
        is_arithmetic(*a),
        c.valid(),
        w.fits(*c),
        kept_fits(*k, *c),
        scratch_ready(*w, *c, room(*old(qs))),
        src_len * c.d_model <= old(s).enc_x@.len(),
        cache_holds(old(s).cross_k@, *c, src_len as nat),
        cache_holds(old(s).cross_v@, *c, src_len as nat),
    ensures
        ({
            let source = rows(old(s).enc_x@, c.d_model as nat, src_len as nat);
            let layers = c.dec_layers as int;
            &&& holds_keys(*a, *c, *w, *k, kernel, source, final(s).cross_k@, layers)
            &&& holds_values(*a, *c, *w, *k, kernel, source, final(s).cross_v@, layers)
        }),
        final(s).cross_k@.len() == old(s).cross_k@.len(),
        final(s).cross_v@.len() == old(s).cross_v@.len(),
        final(s).enc_x@ == old(s).enc_x@,
        final(s).self_k@ == old(s).self_k@,
        final(s).self_v@ == old(s).self_v@,
        final(s).x@ == old(s).x@,
        final(s).q@ == old(s).q@,
        final(s).attn@ == old(s).attn@,
        final(s).norm@ == old(s).norm@,
        final(s).ffn@ == old(s).ffn@,
        final(s).scores@ == old(s).scores@,
        final(s).logits@ == old(s).logits@,
        room(*final(qs)) == room(*old(qs)),
{
    let ghost source = rows(s.enc_x@, c.d_model as nat, src_len as nat);
    let mut l: usize = 0;
    while l < c.dec_layers
        invariant
            l <= c.dec_layers,
            is_arithmetic(*a),
            c.valid(),
            w.fits(*c),
            kept_fits(*k, *c),
            scratch_ready(*w, *c, room(*qs)),
            room(*qs) == room(*old(qs)),
            src_len * c.d_model <= s.enc_x@.len(),
            cache_holds(s.cross_k@, *c, src_len as nat),
            cache_holds(s.cross_v@, *c, src_len as nat),
            source == rows(s.enc_x@, c.d_model as nat, src_len as nat),
            holds_keys(*a, *c, *w, *k, kernel, source, s.cross_k@, l as int),
            holds_values(*a, *c, *w, *k, kernel, source, s.cross_v@, l as int),
            s.cross_k@.len() == old(s).cross_k@.len(),
            s.cross_v@.len() == old(s).cross_v@.len(),
            s.enc_x@ == old(s).enc_x@,
            s.self_k@ == old(s).self_k@,
            s.self_v@ == old(s).self_v@,
            s.x@ == old(s).x@,
            s.q@ == old(s).q@,
            s.attn@ == old(s).attn@,
            s.norm@ == old(s).norm@,
            s.ffn@ == old(s).ffn@,
            s.scores@ == old(s).scores@,
            s.logits@ == old(s).logits@,
        decreases c.dec_layers - l,
    {
        let block = take_cross_attention(w, k, c, l);
        proof {
            assert(block@.room_enough(c.d_model as nat, room(*qs)));
        }
        let ghost keys = s.cross_k@;
        let ghost values = s.cross_v@;
        fill_block(s.cross_k, s.enc_x, &block.k, c, l, src_len, kernel, qs, a);
        fill_block(s.cross_v, s.enc_x, &block.v, c, l, src_len, kernel, qs, a);
        proof {
            assert forall|m: int| 0 <= m < l + 1 implies rows(
                #[trigger] layer_block(s.cross_k@, *c, m),
                c.d_model as nat,
                source.len(),
            ) == rows_made(*a, kernel, cross_attention(*w, *k, *c, m).k, source) by {
                assert(m < l ==> layer_block(s.cross_k@, *c, m) == layer_block(keys, *c, m));
            }
            assert forall|m: int| 0 <= m < l + 1 implies rows(
                #[trigger] layer_block(s.cross_v@, *c, m),
                c.d_model as nat,
                source.len(),
            ) == rows_made(*a, kernel, cross_attention(*w, *k, *c, m).v, source) by {
                assert(m < l ==> layer_block(s.cross_v@, *c, m) == layer_block(values, *c, m));
            }
        }
        l = l + 1;
    }
}

/// A row behind an attention block: what its heads attend to, projected, with the residual
/// and the norm.
pub open spec fn attended_row<A: Fn(Scalar) -> u32>(
    a: A,
    kernel: Kernel,
    block: AttentionView,
    heads: nat,
    x: Seq<u32>,
    keys: Seq<Seq<u32>>,
    values: Seq<Seq<u32>>,
) -> Seq<u32> {
    let size = x.len() / heads;
    let attended = heads_of(
        a,
        block.q.made(a, kernel, x),
        keys,
        values,
        size,
        head_scale(a, size as usize),
        heads as int,
    );
    let sub = block.o.made(a, kernel, attended);
    layernorm_of(a, added(a, sub, x), block.ln.w, block.ln.b)
}

/// Put a row through an attention block.
fn attention_step<A: Fn(Scalar) -> u32>(
    block: &Attention<'_>,
    heads: usize,
    x: &mut [u32],
    keys: &[u32],
    values: &[u32],
    n: usize,
    q: &mut [u32],
    attn: &mut [u32],
    sub: &mut [u32],
    scores: &mut [u32],
    kernel: Kernel,
    qs: &mut Option<QuantScratch<'_, u32>>,
    a: &A,
)
    requires
        is_arithmetic(*a),
        n > 0,
        heads > 0,
        old(x)@.len() % heads as nat == 0,
        block@.shaped(old(x)@.len()),
        block@.room_enough(old(x)@.len(), room(*old(qs))),
        n * old(x)@.len() <= keys@.len(),
        n * old(x)@.len() <= values@.len(),
        old(q)@.len() == old(x)@.len(),
        old(attn)@.len() == old(x)@.len(),
        old(sub)@.len() == old(x)@.len(),
        n <= old(scores)@.len(),
    ensures
        final(x)@ == attended_row(
            *a,
            kernel,
            block@,
            heads as nat,
            old(x)@,
            rows(keys@, old(x)@.len(), n as nat),
            rows(values@, old(x)@.len(), n as nat),
        ),
        final(x)@.len() == old(x)@.len(),
        final(q)@.len() == old(q)@.len(),
        final(attn)@.len() == old(attn)@.len(),
        final(sub)@.len() == old(sub)@.len(),
        final(scores)@.len() == old(scores)@.len(),
        room(*final(qs)) == room(*old(qs)),
{
    let d: usize = x.len();
    block.q.apply(q, x, kernel, qs, a);
    attend(attn, q, keys, values, scores, d, heads, n, a);
    block.o.apply(sub, attn, kernel, qs, a);
    accumulate(sub, x, a);
    layernorm(x, sub, block.ln.w, block.ln.b, a);
}

/// What a decoder step carries from layer to layer.
pub struct Flow {
    /// The residual stream.
    pub x: Seq<u32>,
    /// The self-attention keys.
    pub keys: Seq<u32>,
    /// The self-attention values.
    pub values: Seq<u32>,
}

/// Where the cached row of a position begins.
pub open spec fn cache_row(cache: Seq<u32>, c: Config, l: int, pos: int) -> int {
    l * stride(cache, c) + pos * c.d_model
}

/// The stream and the caches after the self-attention block of layer `l`: the key and value
/// of this position go into the caches, and the rows up to it are attended to.
pub open spec fn after_self<A: Fn(Scalar) -> u32>(
    a: A,
    c: Config,
    kernel: Kernel,
    block: AttentionView,
    l: int,
    pos: int,
    f: Flow,
) -> Flow {
    let d = c.d_model as nat;
    let n = (pos + 1) as nat;
    let keys = written(f.keys, cache_row(f.keys, c, l, pos), block.k.made(a, kernel, f.x));
    let values = written(f.values, cache_row(f.values, c, l, pos), block.v.made(a, kernel, f.x));
    Flow {
        x: attended_row(
            a,
            kernel,
            block,
            c.dec_heads as nat,
            f.x,
            rows(layer_block(keys, c, l), d, n),
            rows(layer_block(values, c, l), d, n),
        ),
        keys,
        values,
    }
}

/// The stream after the cross-attention block of layer `l`.
pub open spec fn after_cross<A: Fn(Scalar) -> u32>(
    a: A,
    c: Config,
    kernel: Kernel,
    block: AttentionView,
    l: int,
    src_len: nat,
    cross_k: Seq<u32>,
    cross_v: Seq<u32>,
    x: Seq<u32>,
) -> Seq<u32> {
    let d = c.d_model as nat;
    attended_row(
        a,
        kernel,
        block,
        c.dec_heads as nat,
        x,
        rows(layer_block(cross_k, c, l), d, src_len),
        rows(layer_block(cross_v, c, l), d, src_len),
    )
}

/// The stream after a feed-forward block.
pub open spec fn after_feed_forward<A: Fn(Scalar) -> u32>(
    a: A,
    c: Config,
    kernel: Kernel,
    block: FeedForwardView,
    x: Seq<u32>,
) -> Seq<u32> {
    let sub = fed_forward(a, kernel, block, c.activation, x);
    layernorm_of(a, added(a, sub, x), block.ln.w, block.ln.b)
}

/// The stream and the caches after the first `n` layers.
pub open spec fn after_decoder_layers<A: Fn(Scalar) -> u32>(
    a: A,
    c: Config,
    w: ModelWeights<'_>,
    k: KeptWeights<'_, u32>,
    kernel: Kernel,
    pos: int,
    src_len: nat,
    cross_k: Seq<u32>,
    cross_v: Seq<u32>,
    f: Flow,
    n: int,
) -> Flow
    decreases n,
{
    if n <= 0 {
        f
    } else {
        let l = n - 1;
        let before = after_decoder_layers(a, c, w, k, kernel, pos, src_len, cross_k, cross_v, f, l);
        let own = after_self(a, c, kernel, self_attention(w, k, c, l), l, pos, before);
        let crossed = after_cross(
            a,
            c,
            kernel,
            cross_attention(w, k, c, l),
            l,
            src_len,
            cross_k,
            cross_v,
            own.x,
        );
        Flow {
            x: after_feed_forward(a, c, kernel, decoder_feed_forward(w, k, c, l), crossed),
            ..own
        }
    }
}

/// The stream and the caches behind the last layer of a step.
pub open spec fn stepped<A: Fn(Scalar) -> u32>(
    a: A,
    c: Config,
    w: ModelWeights<'_>,
    k: KeptWeights<'_, u32>,
    kernel: Kernel,
    token: int,
    pos: int,
    src_len: nat,
    cross_k: Seq<u32>,
    cross_v: Seq<u32>,
    keys: Seq<u32>,
    values: Seq<u32>,
) -> Flow {
    after_decoder_layers(
        a,
        c,
        w,
        k,
        kernel,
        pos,
        src_len,
        cross_k,
        cross_v,
        Flow { x: input_row(a, c, w, token, pos), keys, values },
        c.dec_layers as int,
    )
}

/// Whether a run state has room for a step at `pos` with a source of `src_len` tokens.
pub open spec fn decoder_ready(s: RunState<'_, u32>, c: Config, pos: nat, src_len: nat) -> bool {
    let d = c.d_model as nat;
    &&& s.x@.len() == d
    &&& s.q@.len() == d
    &&& s.attn@.len() == d
    &&& s.norm@.len() == d
    &&& c.dec_ffn <= s.ffn@.len()
    &&& s.logits@.len() == c.vocab_size
    &&& pos + 1 <= s.scores@.len()
    &&& src_len <= s.scores@.len()
    &&& cache_holds(s.self_k@, c, pos + 1)
    &&& cache_holds(s.self_v@, c, pos + 1)
    &&& cache_holds(s.cross_k@, c, src_len)
    &&& cache_holds(s.cross_v@, c, src_len)
}

/// Write a row into layer `l`'s block of a cache.
fn write_row<A: Fn(Scalar) -> u32>(
    cache: &mut [u32],
    x: &[u32],
    lin: &Linear<'_>,
    c: &Config,
    l: usize,
    pos: usize,
    kernel: Kernel,
    qs: &mut Option<QuantScratch<'_, u32>>,
    a: &A,
)
    requires
        is_arithmetic(*a),
        c.dec_layers > 0,
        l < c.dec_layers,
        x@.len() == c.d_model,
        cache_holds(old(cache)@, *c, pos as nat + 1),
        lin@.shaped(c.d_model as nat, c.d_model as nat),
        lin@.m.room_enough(c.d_model as nat, room(*old(qs))),
    ensures
        final(cache)@ == written(
            old(cache)@,
            cache_row(old(cache)@, *c, l as int, pos as int),
            lin@.made(*a, kernel, x@),
        ),
        final(cache)@.len() == old(cache)@.len(),
        room(*final(qs)) == room(*old(qs)),
{
    let ghost before = cache@;
    let d: usize = c.d_model;
    proof {
        blocks_make_up_the_cache(before, *c, l as int);
        window_bounds((pos + 1) as nat, pos as int, d as nat);
        assert(cache.len() == cache@.len());
    }
    let each: usize = cache.len() / c.dec_layers;
    let at: usize = l * each + pos * d;
    let (_, tail) = cache.split_at_mut(at);
    let (row, _) = tail.split_at_mut(d);
    lin.apply(row, x, kernel, qs, a);
    proof {
        assert(cache@ =~= written(before, at as int, lin@.made(*a, kernel, x@)));
    }
}

/// Layer `l`'s block of a cache.
fn block_of<'s>(cache: &'s [u32], c: &Config, l: usize) -> (r: &'s [u32])
    requires
        l < c.dec_layers,
        cache@.len() % c.dec_layers as nat == 0,
    ensures
        r@ == layer_block(cache@, *c, l as int),
        r@.len() == stride(cache@, *c),
{
    proof {
        blocks_make_up_the_cache(cache@, *c, l as int);
        assert(cache.len() == cache@.len());
    }
    let each: usize = cache.len() / c.dec_layers;
    let r = vstd::slice::slice_subrange(cache, l * each, l * each + each);
    proof {
        assert(r@ =~= layer_block(cache@, *c, l as int));
    }
    r
}

/// Put the stream through decoder layer `l`.
fn decoder_layer<A: Fn(Scalar) -> u32>(
    c: &Config,
    w: &ModelWeights<'_>,
    k: &KeptWeights<'_, u32>,
    s: &mut RunState<'_, u32>,
    l: usize,
    pos: usize,
    src_len: usize,
    kernel: Kernel,
    qs: &mut Option<QuantScratch<'_, u32>>,
    a: &A,
)
    requires
        is_arithmetic(*a),
        c.valid(),
        w.fits(*c),
        kept_fits(*k, *c),
        scratch_ready(*w, *c, room(*old(qs))),
        decoder_ready(*old(s), *c, pos as nat, src_len as nat),
        src_len > 0,
        pos < usize::MAX,
        l < c.dec_layers,
    ensures
        decoder_ready(*final(s), *c, pos as nat, src_len as nat),
        ({
            let f = Flow { x: old(s).x@, keys: old(s).self_k@, values: old(s).self_v@ };
            let own = after_self(
                *a,
                *c,
                kernel,
                self_attention(*w, *k, *c, l as int),
                l as int,
                pos as int,
                f,
            );
            let crossed = after_cross(
                *a,
                *c,
                kernel,
                cross_attention(*w, *k, *c, l as int),
                l as int,
                src_len as nat,
                old(s).cross_k@,
                old(s).cross_v@,
                own.x,
            );
            let ffn = decoder_feed_forward(*w, *k, *c, l as int);
            &&& final(s).x@ == after_feed_forward(*a, *c, kernel, ffn, crossed)
            &&& final(s).self_k@ == own.keys
            &&& final(s).self_v@ == own.values
        }),
        final(s).cross_k@ == old(s).cross_k@,
        final(s).cross_v@ == old(s).cross_v@,
        final(s).enc_x@ == old(s).enc_x@,
        final(s).self_k@.len() == old(s).self_k@.len(),
        final(s).self_v@.len() == old(s).self_v@.len(),
        final(s).scores@.len() == old(s).scores@.len(),
        room(*final(qs)) == room(*old(qs)),
{
    let own = take_self_attention(w, k, c, l);
    let cross = take_cross_attention(w, k, c, l);
    let ffn = take_decoder_feed_forward(w, k, c, l);
    proof {
        assert(own@.room_enough(c.d_model as nat, room(*qs)));
        assert(cross@.room_enough(c.d_model as nat, room(*qs)));
        assert(ffn@.room_enough(c.d_model as nat, c.dec_ffn as nat, room(*qs)));
    }
    write_row(s.self_k, s.x, &own.k, c, l, pos, kernel, qs, a);
    write_row(s.self_v, s.x, &own.v, c, l, pos, kernel, qs, a);
    let keys = block_of(s.self_k, c, l);
    let values = block_of(s.self_v, c, l);
    attention_step(
        &own,
        c.dec_heads,
        s.x,
        keys,
        values,
        pos + 1,
        s.q,
        s.attn,
        s.norm,
        s.scores,
        kernel,
        qs,
        a,
    );
    let keys = block_of(s.cross_k, c, l);
    let values = block_of(s.cross_v, c, l);
    attention_step(
        &cross,
        c.dec_heads,
        s.x,
        keys,
        values,
        src_len,
        s.q,
        s.attn,
        s.norm,
        s.scores,
        kernel,
        qs,
        a,
    );
    feed_forward(&ffn, c.activation, s.x, s.norm, s.ffn, c.dec_ffn, kernel, qs, a);
    accumulate(s.norm, s.x, a);
    layernorm(s.x, s.norm, ffn.ln.w, ffn.ln.b, a);
}

/// Run one decoder step: feed `token` at `pos` and leave the logits of what follows in the
/// state. The caches get the keys and values of this position.
pub fn decode_step<A: Fn(Scalar) -> u32>(
    c: &Config,
    w: &ModelWeights<'_>,
    k: &KeptWeights<'_, u32>,
    s: &mut RunState<'_, u32>,
    token: usize,
    pos: usize,
    src_len: usize,
    kernel: Kernel,
    qs: &mut Option<QuantScratch<'_, u32>>,
    a: &A,
)
    requires
        is_arithmetic(*a),
        c.valid(),
        !c.norm_before,
        w.fits(*c),
        kept_fits(*k, *c),
        scratch_ready(*w, *c, room(*old(qs))),
        decoder_ready(*old(s), *c, pos as nat, src_len as nat),
        src_len > 0,
        token < c.vocab_size,
    ensures
        decoder_ready(*final(s), *c, pos as nat, src_len as nat),
        ({
            let f = stepped(
                *a,
                *c,
                *w,
                *k,
                kernel,
                token as int,
                pos as int,
                src_len as nat,
                old(s).cross_k@,
                old(s).cross_v@,
                old(s).self_k@,
                old(s).self_v@,
            );
            &&& final(s).logits@ == classifier(*w, *k, *c).made(*a, kernel, f.x)
            &&& final(s).self_k@ == f.keys
            &&& final(s).self_v@ == f.values
        }),
        final(s).cross_k@ == old(s).cross_k@,
        final(s).cross_v@ == old(s).cross_v@,
        final(s).enc_x@ == old(s).enc_x@,
        final(s).self_k@.len() == old(s).self_k@.len(),
        final(s).self_v@.len() == old(s).self_v@.len(),
        final(s).scores@.len() == old(s).scores@.len(),
        room(*final(qs)) == room(*old(qs)),
{
    let ghost keys = s.self_k@;
    let ghost values = s.self_v@;
    let ghost start = Flow {
        x: input_row(*a, *c, *w, token as int, pos as int),
        keys,
        values,
    };
    proof {
        let scores = s.scores;
        assert(scores.len() == scores@.len());
    }
    embed_input(c, w, token, pos, s.x, s.norm, a);
    let mut l: usize = 0;
    while l < c.dec_layers
        invariant
            l <= c.dec_layers,
            is_arithmetic(*a),
            c.valid(),
            w.fits(*c),
            kept_fits(*k, *c),
            scratch_ready(*w, *c, room(*qs)),
            room(*qs) == room(*old(qs)),
            decoder_ready(*s, *c, pos as nat, src_len as nat),
            src_len > 0,
            pos < usize::MAX,
            ({
                let f = after_decoder_layers(
                    *a,
                    *c,
                    *w,
                    *k,
                    kernel,
                    pos as int,
                    src_len as nat,
                    old(s).cross_k@,
                    old(s).cross_v@,
                    start,
                    l as int,
                );
                &&& s.x@ == f.x
                &&& s.self_k@ == f.keys
                &&& s.self_v@ == f.values
            }),
            s.cross_k@ == old(s).cross_k@,
            s.cross_v@ == old(s).cross_v@,
            s.enc_x@ == old(s).enc_x@,
            s.self_k@.len() == old(s).self_k@.len(),
            s.self_v@.len() == old(s).self_v@.len(),
            s.scores@.len() == old(s).scores@.len(),
        decreases c.dec_layers - l,
    {
        decoder_layer(c, w, k, s, l, pos, src_len, kernel, qs, a);
        l = l + 1;
    }
    let head = take_classifier(w, k, c);
    head.apply(s.logits, s.x, kernel, qs, a);
}

/// The place of the maximum.
pub open spec fn best(logits: Seq<u32>) -> usize {
    (choose|i: int| is_argmax(logits, i)) as usize
}

/// The tokens that follow `token` at `pos` when the best one is taken each time, up to the
/// end token or as many as fit.
pub open spec fn greedy<A: Fn(Scalar) -> u32>(
    a: A,
    c: Config,
    w: ModelWeights<'_>,
    k: KeptWeights<'_, u32>,
    kernel: Kernel,
    src_len: nat,
    cross_k: Seq<u32>,
    cross_v: Seq<u32>,
    token: int,
    pos: int,
    keys: Seq<u32>,
    values: Seq<u32>,
    most: int,
) -> Seq<usize>
    decreases most - pos,
{
    if pos >= most {
        Seq::empty()
    } else {
        let f = stepped(
            a,
            c,
            w,
            k,
            kernel,
            token,
            pos,
            src_len,
            cross_k,
            cross_v,
            keys,
            values,
        );
        let next = best(classifier(w, k, c).made(a, kernel, f.x));
        if next == c.eos_id {
            Seq::empty()
        } else {
            seq![next] + greedy(
                a,
                c,
                w,
                k,
                kernel,
                src_len,
                cross_k,
                cross_v,
                next as int,
                pos + 1,
                f.keys,
                f.values,
                most,
            )
        }
    }
}

/// Run one decoder step and take the best token; the state stays ready for `most` tokens.
fn best_next<A: Fn(Scalar) -> u32>(
    c: &Config,
    w: &ModelWeights<'_>,
    k: &KeptWeights<'_, u32>,
    s: &mut RunState<'_, u32>,
    token: usize,
    pos: usize,
    most: usize,
    src_len: usize,
    kernel: Kernel,
    qs: &mut Option<QuantScratch<'_, u32>>,
    a: &A,
) -> (r: usize)
    requires
        is_arithmetic(*a),
        c.valid(),
        !c.norm_before,
        w.fits(*c),
        kept_fits(*k, *c),
        scratch_ready(*w, *c, room(*old(qs))),
        pos < most,
        decoder_ready(*old(s), *c, (most - 1) as nat, src_len as nat),
        src_len > 0,
        token < c.vocab_size,
    ensures
        decoder_ready(*final(s), *c, (most - 1) as nat, src_len as nat),
        ({
            let f = stepped(
                *a,
                *c,
                *w,
                *k,
                kernel,
                token as int,
                pos as int,
                src_len as nat,
                old(s).cross_k@,
                old(s).cross_v@,
                old(s).self_k@,
                old(s).self_v@,
            );
            &&& r == best(classifier(*w, *k, *c).made(*a, kernel, f.x))
            &&& final(s).self_k@ == f.keys
            &&& final(s).self_v@ == f.values
        }),
        r < c.vocab_size,
        final(s).cross_k@ == old(s).cross_k@,
        final(s).cross_v@ == old(s).cross_v@,
        room(*final(qs)) == room(*old(qs)),
{
    proof {
        let d = c.d_model as nat;
        assert((pos + 1) * d <= most * d) by (nonlinear_arith)
            requires
                pos + 1 <= most,
                d >= 0,
        ;
    }
    decode_step(c, w, k, s, token, pos, src_len, kernel, qs, a);
    let (next, _) = argmax(s.logits);
    proof {
        argmax_is_unique(s.logits@, next as int, choose|i: int| is_argmax(s.logits@, i));
    }
    next
}

/// Decode a source greedily: run the encoder, project its output for the cross-attention,
/// and take the best token each time, from the start token on, until the end token comes or
/// `out` is full. Returns how many tokens were written.
pub fn greedy_decode<A: Fn(Scalar) -> u32>(
    c: &Config,
    w: &ModelWeights<'_>,
    k: &KeptWeights<'_, u32>,
    s: &mut RunState<'_, u32>,
    tokens: &[usize],
    out: &mut [usize],
    kernel: Kernel,
    qs: &mut Option<QuantScratch<'_, u32>>,
    a: &A,
) -> (n: usize)
    requires
        is_arithmetic(*a),
        c.valid(),
        !c.norm_before,
        w.fits(*c),
        kept_fits(*k, *c),
        scratch_ready(*w, *c, room(*old(qs))),
        tokens@.len() > 0,
        forall|t: int| 0 <= t < tokens@.len() ==> #[trigger] tokens@[t] < c.vocab_size,
        encoder_ready(*old(s), *c, tokens@.len()),
        old(out)@.len() > 0 ==> decoder_ready(
            *old(s),
            *c,
            (old(out)@.len() - 1) as nat,
            tokens@.len(),
        ),
        cache_holds(old(s).cross_k@, *c, tokens@.len()),
        cache_holds(old(s).cross_v@, *c, tokens@.len()),
    ensures
        n <= old(out)@.len(),
        final(out)@.len() == old(out)@.len(),
        final(out)@.skip(n as int) == old(out)@.skip(n as int),
        ({
            let source = encoded(*a, *c, *w, *k, kernel, tokens@);
            let layers = c.dec_layers as int;
            &&& holds_keys(*a, *c, *w, *k, kernel, source, final(s).cross_k@, layers)
            &&& holds_values(*a, *c, *w, *k, kernel, source, final(s).cross_v@, layers)
            &&& final(out)@.take(n as int) == greedy(
                *a,
                *c,
                *w,
                *k,
                kernel,
                tokens@.len(),
                final(s).cross_k@,
                final(s).cross_v@,
                c.pad_id as int,
                0,
                old(s).self_k@,
                old(s).self_v@,
                old(out)@.len() as int,
            )
        }),
        room(*final(qs)) == room(*old(qs)),
{
    let src_len: usize = tokens.len();
    let most: usize = out.len();
    encode(c, w, k, s, tokens, kernel, qs, a);
    precompute_cross_kv(c, w, k, s, src_len, kernel, qs, a);
    let ghost cross_k = s.cross_k@;
    let ghost cross_v = s.cross_v@;
    let ghost all = greedy(
        *a,
        *c,
        *w,
        *k,
        kernel,
        src_len as nat,
        cross_k,
        cross_v,
        c.pad_id as int,
        0,
        s.self_k@,
        s.self_v@,
        most as int,
    );
    let mut token: usize = c.decoder_start_id();
    let mut n: usize = 0;
    let mut ended: bool = false;
    proof {
        assert(out@.take(0) =~= Seq::<usize>::empty());
    }
    while n < most && !ended
        invariant
            n <= most,
            most == out@.len(),
            out@.len() == old(out)@.len(),
            forall|i: int| n <= i < most ==> #[trigger] out@[i] == old(out)@[i],
            src_len == tokens@.len(),
            src_len > 0,
            is_arithmetic(*a),
            c.valid(),
            !c.norm_before,
            w.fits(*c),
            kept_fits(*k, *c),
            scratch_ready(*w, *c, room(*qs)),
            room(*qs) == room(*old(qs)),
            most > 0 ==> decoder_ready(*s, *c, (most - 1) as nat, src_len as nat),
            token < c.vocab_size,
            s.cross_k@ == cross_k,
            s.cross_v@ == cross_v,
            ended ==> all == out@.take(n as int),
            !ended ==> all == out@.take(n as int) + greedy(
                *a,
                *c,
                *w,
                *k,
                kernel,
                src_len as nat,
                cross_k,
                cross_v,
                token as int,
                n as int,
                s.self_k@,
                s.self_v@,
                most as int,
            ),
        decreases most - n + if ended {
            0int
        } else {
            1int
        },
    {
        let ghost made = out@.take(n as int);
        let ghost rest = greedy(
            *a,
            *c,
            *w,
            *k,
            kernel,
            src_len as nat,
            cross_k,
            cross_v,
            token as int,
            n as int,
            s.self_k@,
            s.self_v@,
            most as int,
        );
        let next: usize = best_next(c, w, k, s, token, n, most, src_len, kernel, qs, a);
        if next == c.eos_id {
            ended = true;
            proof {
                assert(rest =~= Seq::<usize>::empty());
                assert(all =~= made);
            }
        } else {
            out[n] = next;
            token = next;
            n = n + 1;
            proof {
                assert(out@.take(n as int) =~= made.push(next));
                let behind = greedy(
                    *a,
                    *c,
                    *w,
                    *k,
                    kernel,
                    src_len as nat,
                    cross_k,
                    cross_v,
                    token as int,
                    n as int,
                    s.self_k@,
                    s.self_v@,
                    most as int,
                );
                assert(rest == seq![next] + behind);
                assert(made + (seq![next] + behind) =~= out@.take(n as int) + behind);
            }
        }
    }
    proof {
        assert(all =~= out@.take(n as int));
        assert(out@.skip(n as int) =~= old(out)@.skip(n as int));
    }
    n
}

} // verus!
