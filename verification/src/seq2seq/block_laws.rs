//! What the blocks do with their weights: which tensor, which layer of it and which row of that
//! layer makes each element, and what is done with the products.

use vstd::prelude::*;

use crate::kernels::{added, attention_of, layernorm_of};
use crate::layout::{window, window_bounds, written};
use crate::llama::forward_laws::{layer_row, q8_layer_row, q8_row_dot, row_dot, swish};
use crate::math::Kernel;
use crate::quant::QuantizedTensor;
use crate::scalar::{value, Scalar, FRAC_1_SQRT_2, HALF, ONE, POSITION_BASE, TWO};
use crate::seq2seq::blocks::{all_activated, heads_of, input_row, rows};
use crate::seq2seq::config::{Activation, Config};
use crate::seq2seq::decoder::{
    after_cross, after_decoder_layers, after_feed_forward, after_self, attended_row, holds_keys,
    holds_values, layer_block, Flow,
};
use crate::seq2seq::matrix::LinearView;
use crate::seq2seq::model::{
    after_encoder_layer, after_encoder_layers, encoded, fed_forward, rows_made, source_rows,
};
use crate::seq2seq::params::{
    classifier, cross_attention, decoder_feed_forward, encoder_attention, encoder_feed_forward,
    full_tensor, kept_fits, q8_proj, self_attention, AttentionView, FeedForwardView, ModelWeights,
    Proj,
};
use crate::seq2seq::quantize::{kept_lens, KeptWeights};

verus! {

/// A matrix of all layers, in full precision or quantized.
pub enum Source<'a> {
    /// In full precision.
    Full(Seq<u32>),
    /// Quantized.
    Packed(QuantizedTensor<'a, u32>),
}

/// Row `row` of a matrix times `x`, and the element of the bias that belongs to the row.
pub open spec fn affine<A: Fn(Scalar) -> u32>(
    a: A,
    kernel: Kernel,
    m: Source<'_>,
    b: Seq<u32>,
    row: int,
    x: Seq<u32>,
) -> u32 {
    let product = match m {
        Source::Full(t) => row_dot(a, kernel, t, row, x, x.len() as int),
        Source::Packed(t) => q8_row_dot(a, t, row, x, x.len() as int),
    };
    value(a, Scalar::Add(product, b[row]))
}

/// The embedding, which is the classifier too.
pub open spec fn token_embedding(w: ModelWeights<'_>) -> Source<'_> {
    match w {
        ModelWeights::F32(w) => Source::Full(w.token_embedding@),
        ModelWeights::Q8(w) => Source::Packed(w.token_embedding),
    }
}

/// The encoder's query projections.
pub open spec fn enc_wq(w: ModelWeights<'_>) -> Source<'_> {
    match w {
        ModelWeights::F32(w) => Source::Full(w.enc_wq@),
        ModelWeights::Q8(w) => Source::Packed(w.enc_wq),
    }
}

/// The encoder's key projections.
pub open spec fn enc_wk(w: ModelWeights<'_>) -> Source<'_> {
    match w {
        ModelWeights::F32(w) => Source::Full(w.enc_wk@),
        ModelWeights::Q8(w) => Source::Packed(w.enc_wk),
    }
}

/// The encoder's value projections.
pub open spec fn enc_wv(w: ModelWeights<'_>) -> Source<'_> {
    match w {
        ModelWeights::F32(w) => Source::Full(w.enc_wv@),
        ModelWeights::Q8(w) => Source::Packed(w.enc_wv),
    }
}

/// The encoder's attention output projections.
pub open spec fn enc_wo(w: ModelWeights<'_>) -> Source<'_> {
    match w {
        ModelWeights::F32(w) => Source::Full(w.enc_wo@),
        ModelWeights::Q8(w) => Source::Packed(w.enc_wo),
    }
}

/// The encoder's up projections.
pub open spec fn enc_fc1_w(w: ModelWeights<'_>) -> Source<'_> {
    match w {
        ModelWeights::F32(w) => Source::Full(w.enc_fc1_w@),
        ModelWeights::Q8(w) => Source::Packed(w.enc_fc1_w),
    }
}

/// The encoder's down projections.
pub open spec fn enc_fc2_w(w: ModelWeights<'_>) -> Source<'_> {
    match w {
        ModelWeights::F32(w) => Source::Full(w.enc_fc2_w@),
        ModelWeights::Q8(w) => Source::Packed(w.enc_fc2_w),
    }
}

/// The decoder's query projections of its own attention.
pub open spec fn dec_wq(w: ModelWeights<'_>) -> Source<'_> {
    match w {
        ModelWeights::F32(w) => Source::Full(w.dec_wq@),
        ModelWeights::Q8(w) => Source::Packed(w.dec_wq),
    }
}

/// The decoder's key projections of its own attention.
pub open spec fn dec_wk(w: ModelWeights<'_>) -> Source<'_> {
    match w {
        ModelWeights::F32(w) => Source::Full(w.dec_wk@),
        ModelWeights::Q8(w) => Source::Packed(w.dec_wk),
    }
}

/// The decoder's value projections of its own attention.
pub open spec fn dec_wv(w: ModelWeights<'_>) -> Source<'_> {
    match w {
        ModelWeights::F32(w) => Source::Full(w.dec_wv@),
        ModelWeights::Q8(w) => Source::Packed(w.dec_wv),
    }
}

/// The decoder's output projections of its own attention.
pub open spec fn dec_wo(w: ModelWeights<'_>) -> Source<'_> {
    match w {
        ModelWeights::F32(w) => Source::Full(w.dec_wo@),
        ModelWeights::Q8(w) => Source::Packed(w.dec_wo),
    }
}

/// The decoder's query projections of the attention to the source.
pub open spec fn dec_cross_wq(w: ModelWeights<'_>) -> Source<'_> {
    match w {
        ModelWeights::F32(w) => Source::Full(w.dec_cross_wq@),
        ModelWeights::Q8(w) => Source::Packed(w.dec_cross_wq),
    }
}

/// The decoder's key projections of the attention to the source.
pub open spec fn dec_cross_wk(w: ModelWeights<'_>) -> Source<'_> {
    match w {
        ModelWeights::F32(w) => Source::Full(w.dec_cross_wk@),
        ModelWeights::Q8(w) => Source::Packed(w.dec_cross_wk),
    }
}

/// The decoder's value projections of the attention to the source.
pub open spec fn dec_cross_wv(w: ModelWeights<'_>) -> Source<'_> {
    match w {
        ModelWeights::F32(w) => Source::Full(w.dec_cross_wv@),
        ModelWeights::Q8(w) => Source::Packed(w.dec_cross_wv),
    }
}

/// The decoder's output projections of the attention to the source.
pub open spec fn dec_cross_wo(w: ModelWeights<'_>) -> Source<'_> {
    match w {
        ModelWeights::F32(w) => Source::Full(w.dec_cross_wo@),
        ModelWeights::Q8(w) => Source::Packed(w.dec_cross_wo),
    }
}

/// The decoder's up projections.
pub open spec fn dec_fc1_w(w: ModelWeights<'_>) -> Source<'_> {
    match w {
        ModelWeights::F32(w) => Source::Full(w.dec_fc1_w@),
        ModelWeights::Q8(w) => Source::Packed(w.dec_fc1_w),
    }
}

/// The decoder's down projections.
pub open spec fn dec_fc2_w(w: ModelWeights<'_>) -> Source<'_> {
    match w {
        ModelWeights::F32(w) => Source::Full(w.dec_fc2_w@),
        ModelWeights::Q8(w) => Source::Packed(w.dec_fc2_w),
    }
}

/// What an activation makes of `z`: half of `z` times one plus the error function of `z` over the
/// root of two, or `z` times the logistic function of `z`.
pub open spec fn activation_of<A: Fn(Scalar) -> u32>(a: A, act: Activation, z: u32) -> u32 {
    match act {
        Activation::Gelu => value(
            a,
            Scalar::Mul(
                value(a, Scalar::Mul(HALF, z)),
                value(
                    a,
                    Scalar::Add(
                        ONE,
                        value(a, Scalar::Erf(value(a, Scalar::Mul(z, FRAC_1_SQRT_2)))),
                    ),
                ),
            ),
        ),
        Activation::Swish => swish(a, z),
    }
}

/// The lengths of the biases and norms.
proof fn kept_lengths(k: KeptWeights<'_, u32>, c: Config)
    requires
        kept_fits(k, c),
    ensures
        k.enc_bq@.len() == c.enc_layers as nat * c.d_model as nat,
        k.enc_bk@.len() == c.enc_layers as nat * c.d_model as nat,
        k.enc_bv@.len() == c.enc_layers as nat * c.d_model as nat,
        k.enc_bo@.len() == c.enc_layers as nat * c.d_model as nat,
        k.enc_ln_att_w@.len() == c.enc_layers as nat * c.d_model as nat,
        k.enc_ln_att_b@.len() == c.enc_layers as nat * c.d_model as nat,
        k.enc_fc1_b@.len() == c.enc_layers as nat * c.enc_ffn as nat,
        k.enc_fc2_b@.len() == c.enc_layers as nat * c.d_model as nat,
        k.enc_ln_ffn_w@.len() == c.enc_layers as nat * c.d_model as nat,
        k.enc_ln_ffn_b@.len() == c.enc_layers as nat * c.d_model as nat,
        k.dec_bq@.len() == c.dec_layers as nat * c.d_model as nat,
        k.dec_bk@.len() == c.dec_layers as nat * c.d_model as nat,
        k.dec_bv@.len() == c.dec_layers as nat * c.d_model as nat,
        k.dec_bo@.len() == c.dec_layers as nat * c.d_model as nat,
        k.dec_ln_self_w@.len() == c.dec_layers as nat * c.d_model as nat,
        k.dec_ln_self_b@.len() == c.dec_layers as nat * c.d_model as nat,
        k.dec_cross_bq@.len() == c.dec_layers as nat * c.d_model as nat,
        k.dec_cross_bk@.len() == c.dec_layers as nat * c.d_model as nat,
        k.dec_cross_bv@.len() == c.dec_layers as nat * c.d_model as nat,
        k.dec_cross_bo@.len() == c.dec_layers as nat * c.d_model as nat,
        k.dec_ln_cross_w@.len() == c.dec_layers as nat * c.d_model as nat,
        k.dec_ln_cross_b@.len() == c.dec_layers as nat * c.d_model as nat,
        k.dec_fc1_b@.len() == c.dec_layers as nat * c.dec_ffn as nat,
        k.dec_fc2_b@.len() == c.dec_layers as nat * c.d_model as nat,
        k.dec_ln_ffn_w@.len() == c.dec_layers as nat * c.d_model as nat,
        k.dec_ln_ffn_b@.len() == c.dec_layers as nat * c.d_model as nat,
        k.final_logits_bias@.len() == c.vocab_size as nat,
{
    let t = k.tensors();
    let lens = kept_lens(c);
    assert(t[0].len() == lens[0]);
    assert(t[1].len() == lens[1]);
    assert(t[2].len() == lens[2]);
    assert(t[3].len() == lens[3]);
    assert(t[4].len() == lens[4]);
    assert(t[5].len() == lens[5]);
    assert(t[6].len() == lens[6]);
    assert(t[7].len() == lens[7]);
    assert(t[8].len() == lens[8]);
    assert(t[9].len() == lens[9]);
    assert(t[10].len() == lens[10]);
    assert(t[11].len() == lens[11]);
    assert(t[12].len() == lens[12]);
    assert(t[13].len() == lens[13]);
    assert(t[14].len() == lens[14]);
    assert(t[15].len() == lens[15]);
    assert(t[16].len() == lens[16]);
    assert(t[17].len() == lens[17]);
    assert(t[18].len() == lens[18]);
    assert(t[19].len() == lens[19]);
    assert(t[20].len() == lens[20]);
    assert(t[21].len() == lens[21]);
    assert(t[22].len() == lens[22]);
    assert(t[23].len() == lens[23]);
    assert(t[24].len() == lens[24]);
    assert(t[25].len() == lens[25]);
    assert(t[26].len() == lens[26]);
}

/// An element of a linear layer is one row of its matrix times the input, and its bias.
proof fn linear_element<A: Fn(Scalar) -> u32>(
    a: A,
    c: Config,
    w: ModelWeights<'_>,
    kernel: Kernel,
    p: Proj,
    b: Seq<u32>,
    l: int,
    x: Seq<u32>,
    i: int,
)
    requires
        w.fits(c),
        0 <= l < p.layers(c),
        b.len() == p.layers(c) * p.dims(c).1,
        x.len() == p.dims(c).0,
        0 <= i < p.dims(c).1,
    ensures
        w.linear(c, p, b, l).b.len() == p.dims(c).1,
        w.linear(c, p, b, l).made(a, kernel, x).len() == p.dims(c).1,
        w is F32 ==> w.linear(c, p, b, l).made(a, kernel, x)[i] == affine(
            a,
            kernel,
            Source::Full(full_tensor(w->F32_0, p)),
            b,
            l * p.dims(c).1 + i,
            x,
        ),
        w is Q8 ==> w.linear(c, p, b, l).made(a, kernel, x)[i] == affine(
            a,
            kernel,
            Source::Packed(q8_proj(w->Q8_0, p)),
            b,
            l * p.dims(c).1 + i,
            x,
        ),
{
    let (d_in, d_out) = p.dims(c);
    window_bounds(p.layers(c), l, d_out);
    match w {
        ModelWeights::F32(f) => {
            let t = full_tensor(f, p);
            assert(t.len() == p.layers(c) * p.size(c));
            layer_row(a, kernel, t, x, p.layers(c), l, d_in, d_out, i);
        },
        ModelWeights::Q8(f) => {
            let t = q8_proj(f, p);
            assert(t.data@.len() == p.layers(c) * p.size(c));
            q8_layer_row(a, t, x, p.layers(c), l, d_in, d_out, i);
        },
    }
}

/// The encoder's attention in layer `l` projects with the rows of that layer of its own query, key,
/// value and output tensors and biases, and norms with that layer of its own norm.
pub proof fn encoder_attention_uses_its_tensors<A: Fn(Scalar) -> u32>(
    a: A,
    c: Config,
    w: ModelWeights<'_>,
    k: KeptWeights<'_, u32>,
    kernel: Kernel,
    l: int,
    x: Seq<u32>,
    i: int,
)
    requires
        w.fits(c),
        kept_fits(k, c),
        0 <= l < c.enc_layers,
        x.len() == c.d_model,
        0 <= i < c.d_model,
    ensures
        ({
            let block = encoder_attention(w, k, c, l);
            let row = l * c.d_model + i;
            &&& block.q.made(a, kernel, x).len() == c.d_model
            &&& block.q.made(a, kernel, x)[i] == affine(a, kernel, enc_wq(w), k.enc_bq@, row, x)
            &&& block.k.made(a, kernel, x).len() == c.d_model
            &&& block.k.made(a, kernel, x)[i] == affine(a, kernel, enc_wk(w), k.enc_bk@, row, x)
            &&& block.v.made(a, kernel, x).len() == c.d_model
            &&& block.v.made(a, kernel, x)[i] == affine(a, kernel, enc_wv(w), k.enc_bv@, row, x)
            &&& block.o.made(a, kernel, x).len() == c.d_model
            &&& block.o.made(a, kernel, x)[i] == affine(a, kernel, enc_wo(w), k.enc_bo@, row, x)
            &&& block.ln.w.len() == c.d_model
            &&& block.ln.w[i] == k.enc_ln_att_w@[row]
            &&& block.ln.b.len() == c.d_model
            &&& block.ln.b[i] == k.enc_ln_att_b@[row]
        }),
{
    kept_lengths(k, c);
    window_bounds(c.enc_layers as nat, l, c.d_model as nat);
    linear_element(a, c, w, kernel, Proj::EncQ, k.enc_bq@, l, x, i);
    linear_element(a, c, w, kernel, Proj::EncK, k.enc_bk@, l, x, i);
    linear_element(a, c, w, kernel, Proj::EncV, k.enc_bv@, l, x, i);
    linear_element(a, c, w, kernel, Proj::EncO, k.enc_bo@, l, x, i);
}

/// The decoder's attention to itself in layer `l` projects with the rows of that layer of its own
/// query, key, value and output tensors and biases, and norms with that layer of its own norm.
pub proof fn self_attention_uses_its_tensors<A: Fn(Scalar) -> u32>(
    a: A,
    c: Config,
    w: ModelWeights<'_>,
    k: KeptWeights<'_, u32>,
    kernel: Kernel,
    l: int,
    x: Seq<u32>,
    i: int,
)
    requires
        w.fits(c),
        kept_fits(k, c),
        0 <= l < c.dec_layers,
        x.len() == c.d_model,
        0 <= i < c.d_model,
    ensures
        ({
            let block = self_attention(w, k, c, l);
            let row = l * c.d_model + i;
            &&& block.q.made(a, kernel, x).len() == c.d_model
            &&& block.q.made(a, kernel, x)[i] == affine(a, kernel, dec_wq(w), k.dec_bq@, row, x)
            &&& block.k.made(a, kernel, x).len() == c.d_model
            &&& block.k.made(a, kernel, x)[i] == affine(a, kernel, dec_wk(w), k.dec_bk@, row, x)
            &&& block.v.made(a, kernel, x).len() == c.d_model
            &&& block.v.made(a, kernel, x)[i] == affine(a, kernel, dec_wv(w), k.dec_bv@, row, x)
            &&& block.o.made(a, kernel, x).len() == c.d_model
            &&& block.o.made(a, kernel, x)[i] == affine(a, kernel, dec_wo(w), k.dec_bo@, row, x)
            &&& block.ln.w.len() == c.d_model
            &&& block.ln.w[i] == k.dec_ln_self_w@[row]
            &&& block.ln.b.len() == c.d_model
            &&& block.ln.b[i] == k.dec_ln_self_b@[row]
        }),
{
    kept_lengths(k, c);
    window_bounds(c.dec_layers as nat, l, c.d_model as nat);
    linear_element(a, c, w, kernel, Proj::SelfQ, k.dec_bq@, l, x, i);
    linear_element(a, c, w, kernel, Proj::SelfK, k.dec_bk@, l, x, i);
    linear_element(a, c, w, kernel, Proj::SelfV, k.dec_bv@, l, x, i);
    linear_element(a, c, w, kernel, Proj::SelfO, k.dec_bo@, l, x, i);
}

/// The decoder's attention to the source in layer `l` projects with the rows of that layer of its
/// own query, key, value and output tensors and biases, and norms with that layer of its own norm.
pub proof fn cross_attention_uses_its_tensors<A: Fn(Scalar) -> u32>(
    a: A,
    c: Config,
    w: ModelWeights<'_>,
    k: KeptWeights<'_, u32>,
    kernel: Kernel,
    l: int,
    x: Seq<u32>,
    i: int,
)
    requires
        w.fits(c),
        kept_fits(k, c),
        0 <= l < c.dec_layers,
        x.len() == c.d_model,
        0 <= i < c.d_model,
    ensures
        ({
            let block = cross_attention(w, k, c, l);
            let row = l * c.d_model + i;
            &&& block.q.made(a, kernel, x).len() == c.d_model
            &&& block.q.made(a, kernel, x)[i] == affine(a, kernel, dec_cross_wq(w), k.dec_cross_bq@, row, x)
            &&& block.k.made(a, kernel, x).len() == c.d_model
            &&& block.k.made(a, kernel, x)[i] == affine(a, kernel, dec_cross_wk(w), k.dec_cross_bk@, row, x)
            &&& block.v.made(a, kernel, x).len() == c.d_model
            &&& block.v.made(a, kernel, x)[i] == affine(a, kernel, dec_cross_wv(w), k.dec_cross_bv@, row, x)
            &&& block.o.made(a, kernel, x).len() == c.d_model
            &&& block.o.made(a, kernel, x)[i] == affine(a, kernel, dec_cross_wo(w), k.dec_cross_bo@, row, x)
            &&& block.ln.w.len() == c.d_model
            &&& block.ln.w[i] == k.dec_ln_cross_w@[row]
            &&& block.ln.b.len() == c.d_model
            &&& block.ln.b[i] == k.dec_ln_cross_b@[row]
        }),
{
    kept_lengths(k, c);
    window_bounds(c.dec_layers as nat, l, c.d_model as nat);
    linear_element(a, c, w, kernel, Proj::CrossQ, k.dec_cross_bq@, l, x, i);
    linear_element(a, c, w, kernel, Proj::CrossK, k.dec_cross_bk@, l, x, i);
    linear_element(a, c, w, kernel, Proj::CrossV, k.dec_cross_bv@, l, x, i);
    linear_element(a, c, w, kernel, Proj::CrossO, k.dec_cross_bo@, l, x, i);
}

/// The encoder's feed-forward block in layer `l` goes up and down with the rows of that layer of its
/// own tensors and biases, and norms with that layer of its own norm.
pub proof fn encoder_feed_forward_uses_its_tensors<A: Fn(Scalar) -> u32>(
    a: A,
    c: Config,
    w: ModelWeights<'_>,
    k: KeptWeights<'_, u32>,
    kernel: Kernel,
    l: int,
    x: Seq<u32>,
    h: Seq<u32>,
    i: int,
    j: int,
)
    requires
        w.fits(c),
        kept_fits(k, c),
        0 <= l < c.enc_layers,
        x.len() == c.d_model,
        h.len() == c.enc_ffn,
        0 <= i < c.d_model,
        0 <= j < c.enc_ffn,
    ensures
        ({
            let block = encoder_feed_forward(w, k, c, l);
            let row = l * c.d_model + i;
            &&& block.up.made(a, kernel, x).len() == c.enc_ffn
            &&& block.up.made(a, kernel, x)[j] == affine(
                a,
                kernel,
                enc_fc1_w(w),
                k.enc_fc1_b@,
                l * c.enc_ffn + j,
                x,
            )
            &&& block.down.made(a, kernel, h).len() == c.d_model
            &&& block.down.made(a, kernel, h)[i] == affine(
                a,
                kernel,
                enc_fc2_w(w),
                k.enc_fc2_b@,
                row,
                h,
            )
            &&& block.ln.w.len() == c.d_model
            &&& block.ln.w[i] == k.enc_ln_ffn_w@[row]
            &&& block.ln.b.len() == c.d_model
            &&& block.ln.b[i] == k.enc_ln_ffn_b@[row]
        }),
{
    kept_lengths(k, c);
    window_bounds(c.enc_layers as nat, l, c.d_model as nat);
    linear_element(a, c, w, kernel, Proj::EncUp, k.enc_fc1_b@, l, x, j);
    linear_element(a, c, w, kernel, Proj::EncDown, k.enc_fc2_b@, l, h, i);
}

/// The decoder's feed-forward block in layer `l` goes up and down with the rows of that layer of its
/// own tensors and biases, and norms with that layer of its own norm.
pub proof fn decoder_feed_forward_uses_its_tensors<A: Fn(Scalar) -> u32>(
    a: A,
    c: Config,
    w: ModelWeights<'_>,
    k: KeptWeights<'_, u32>,
    kernel: Kernel,
    l: int,
    x: Seq<u32>,
    h: Seq<u32>,
    i: int,
    j: int,
)
    requires
        w.fits(c),
        kept_fits(k, c),
        0 <= l < c.dec_layers,
        x.len() == c.d_model,
        h.len() == c.dec_ffn,
        0 <= i < c.d_model,
        0 <= j < c.dec_ffn,
    ensures
        ({
            let block = decoder_feed_forward(w, k, c, l);
            let row = l * c.d_model + i;
            &&& block.up.made(a, kernel, x).len() == c.dec_ffn
            &&& block.up.made(a, kernel, x)[j] == affine(
                a,
                kernel,
                dec_fc1_w(w),
                k.dec_fc1_b@,
                l * c.dec_ffn + j,
                x,
            )
            &&& block.down.made(a, kernel, h).len() == c.d_model
            &&& block.down.made(a, kernel, h)[i] == affine(
                a,
                kernel,
                dec_fc2_w(w),
                k.dec_fc2_b@,
                row,
                h,
            )
            &&& block.ln.w.len() == c.d_model
            &&& block.ln.w[i] == k.dec_ln_ffn_w@[row]
            &&& block.ln.b.len() == c.d_model
            &&& block.ln.b[i] == k.dec_ln_ffn_b@[row]
        }),
{
    kept_lengths(k, c);
    window_bounds(c.dec_layers as nat, l, c.d_model as nat);
    linear_element(a, c, w, kernel, Proj::DecUp, k.dec_fc1_b@, l, x, j);
    linear_element(a, c, w, kernel, Proj::DecDown, k.dec_fc2_b@, l, h, i);
}

/// The logits are the rows of the embedding times the output, and the bias of the logits.
pub proof fn logits_are_embedding_rows<A: Fn(Scalar) -> u32>(
    a: A,
    c: Config,
    w: ModelWeights<'_>,
    k: KeptWeights<'_, u32>,
    kernel: Kernel,
    x: Seq<u32>,
    i: int,
)
    requires
        w.fits(c),
        kept_fits(k, c),
        x.len() == c.d_model,
        0 <= i < c.vocab_size,
    ensures
        classifier(w, k, c).made(a, kernel, x).len() == c.vocab_size,
        classifier(w, k, c).made(a, kernel, x)[i] == affine(
            a,
            kernel,
            token_embedding(w),
            k.final_logits_bias@,
            i,
            x,
        ),
{
    kept_lengths(k, c);
    let b = k.final_logits_bias@;
    linear_element(a, c, w, kernel, Proj::Embedding, b, 0, x, i);
    assert(window(b, 0, c.vocab_size as int) =~= b);
}

/// Element `i` of what a token enters as: that of its row of the embedding, times the scale of its
/// group where that is quantized.
pub open spec fn embedded<A: Fn(Scalar) -> u32>(
    a: A,
    w: ModelWeights<'_>,
    at: int,
) -> u32 {
    match w {
        ModelWeights::F32(w) => w.token_embedding@[at],
        ModelWeights::Q8(w) => value(
            a,
            Scalar::Mul(
                value(a, Scalar::Int(w.token_embedding.data@[at] as i32)),
                w.token_embedding.scales@[at / w.token_embedding.group_size as int],
            ),
        ),
    }
}

/// Element `i` of the encoding of position `pos` in `d` dimensions: the first half holds sines, the
/// rest cosines, of the position over ten thousand to the power of twice the place over `d`.
pub open spec fn position_element<A: Fn(Scalar) -> u32>(a: A, pos: usize, d: usize, i: int) -> u32 {
    let half = (d + 1) / 2;
    let place = if i < half {
        i
    } else {
        i - half
    };
    let exponent = value(
        a,
        Scalar::Div(
            value(a, Scalar::Mul(TWO, value(a, Scalar::Count(place as usize)))),
            value(a, Scalar::Count(d)),
        ),
    );
    let frequency = value(a, Scalar::Div(ONE, value(a, Scalar::Pow(POSITION_BASE, exponent))));
    let angle = value(a, Scalar::Mul(value(a, Scalar::Count(pos)), frequency));
    if i < half {
        value(a, Scalar::Sin(angle))
    } else {
        value(a, Scalar::Cos(angle))
    }
}

/// An element of a token's embedding.
proof fn embedding_element<A: Fn(Scalar) -> u32>(
    a: A,
    c: Config,
    w: ModelWeights<'_>,
    token: int,
    i: int,
)
    requires
        w.fits(c),
        0 <= token < c.vocab_size,
        0 <= i < c.d_model,
    ensures
        w.embedding(a, token, c.d_model as nat).len() == c.d_model,
        w.embedding(a, token, c.d_model as nat)[i] == embedded(a, w, token * c.d_model + i),
{
    let dim = c.d_model as nat;
    let v = c.vocab_size as nat;
    window_bounds(v, token, dim);
    assert(1 * (v * dim) == v * dim) by (nonlinear_arith);
    match w {
        ModelWeights::F32(f) => {
            assert(full_tensor(f, Proj::Embedding).len() == 1 * (v * dim));
        },
        ModelWeights::Q8(f) => {
            let t = q8_proj(f, Proj::Embedding);
            assert(t.data@.len() == 1 * (v * dim));
            assert(t.scales@.len() == (1 * (v * dim)) / f.token_embedding.group_size as nat);
            let gs = f.token_embedding.group_size as nat;
            let groups = dim / gs;
            vstd::arithmetic::div_mod::lemma_fundamental_div_mod(dim as int, gs as int);
            vstd::arithmetic::div_mod::lemma_fundamental_div_mod(i, gs as int);
            let (q, m) = (i / gs as int, i % gs as int);
            assert(token * dim + i == gs * (token * groups + q) + m) by (nonlinear_arith)
                requires
                    dim == gs * groups + 0,
                    i == gs * q + m,
            ;
            vstd::arithmetic::div_mod::lemma_fundamental_div_mod_converse(
                token * dim + i,
                gs as int,
                token * groups + q,
                m,
            );
            assert(0 <= q < groups) by (nonlinear_arith)
                requires
                    0 <= i < dim,
                    dim == gs * groups + 0,
                    i == gs * q + m,
                    0 <= m < gs,
            ;
            assert(v * dim == gs * (v * groups)) by (nonlinear_arith)
                requires
                    dim == gs * groups + 0,
            ;
            vstd::arithmetic::div_mod::lemma_div_multiples_vanish((v * groups) as int, gs as int);
            window_bounds(v, token, groups);
        },
    }
}

/// With scaled embeddings, a token at a position enters as its embedding times the root of the
/// model dimension, plus the encoding of the position.
pub proof fn scaled_tokens_enter_times_the_root<A: Fn(Scalar) -> u32>(
    a: A,
    c: Config,
    w: ModelWeights<'_>,
    token: int,
    pos: usize,
    i: int,
)
    requires
        c.scale_embedding,
        w.fits(c),
        0 <= token < c.vocab_size,
        0 <= i < c.d_model,
    ensures
        input_row(a, c, w, token, pos as int).len() == c.d_model,
        input_row(a, c, w, token, pos as int)[i] == value(
            a,
            Scalar::Add(
                value(
                    a,
                    Scalar::Mul(
                        embedded(a, w, token * c.d_model + i),
                        value(a, Scalar::Sqrt(value(a, Scalar::Count(c.d_model)))),
                    ),
                ),
                position_element(a, pos, c.d_model, i),
            ),
        ),
{
    embedding_element(a, c, w, token, i);
}

/// Without scaled embeddings, a token at a position enters as its embedding, plus the encoding of
/// the position.
pub proof fn unscaled_tokens_enter_as_they_are<A: Fn(Scalar) -> u32>(
    a: A,
    c: Config,
    w: ModelWeights<'_>,
    token: int,
    pos: usize,
    i: int,
)
    requires
        !c.scale_embedding,
        w.fits(c),
        0 <= token < c.vocab_size,
        0 <= i < c.d_model,
    ensures
        input_row(a, c, w, token, pos as int).len() == c.d_model,
        input_row(a, c, w, token, pos as int)[i] == value(
            a,
            Scalar::Add(
                embedded(a, w, token * c.d_model + i),
                position_element(a, pos, c.d_model, i),
            ),
        ),
{
    embedding_element(a, c, w, token, i);
}

/// The part of every row that belongs to head `h`.
pub open spec fn head_part(rows: Seq<Seq<u32>>, h: int, size: int) -> Seq<Seq<u32>> {
    Seq::new(rows.len(), |t: int| rows[t].subrange(h * size, (h + 1) * size))
}

/// Where the heads' outputs hold element `e` of head `h`.
pub open spec fn head_place(h: int, size: int, e: int) -> int {
    h * size + e
}

/// Whether `out` holds the outputs of all heads: each attends with its own part of the query to its
/// own part of every key and value, at a scale of one over the root of the head size.
pub open spec fn attends<A: Fn(Scalar) -> u32>(
    a: A,
    q: Seq<u32>,
    keys: Seq<Seq<u32>>,
    values: Seq<Seq<u32>>,
    heads: nat,
    out: Seq<u32>,
) -> bool {
    let size = q.len() as int / heads as int;
    let scale = value(
        a,
        Scalar::Div(ONE, value(a, Scalar::Sqrt(value(a, Scalar::Count(size as usize))))),
    );
    &&& out.len() == q.len()
    &&& forall|h: int, e: int|
        0 <= h < heads && 0 <= e < size ==> #[trigger] out[head_place(h, size, e)]
            == attention_of(
            a,
            q.subrange(h * size, (h + 1) * size),
            head_part(keys, h, size),
            head_part(values, h, size),
            scale,
        )[e]
}

/// The outputs of `n` heads, one behind the other.
proof fn heads_in_order<A: Fn(Scalar) -> u32>(
    a: A,
    q: Seq<u32>,
    keys: Seq<Seq<u32>>,
    values: Seq<Seq<u32>>,
    size: nat,
    scale: u32,
    heads: nat,
    n: int,
)
    requires
        0 <= n <= heads,
        q.len() == heads * size,
    ensures
        heads_of(a, q, keys, values, size, scale, n).len() == n * size,
        forall|h: int, e: int|
            0 <= h < n && 0 <= e < size ==> #[trigger] heads_of(
                a,
                q,
                keys,
                values,
                size,
                scale,
                n,
            )[head_place(h, size as int, e)] == attention_of(
                a,
                q.subrange(h * size, (h + 1) * size),
                head_part(keys, h, size as int),
                head_part(values, h, size as int),
                scale,
            )[e],
    decreases n,
{
    if n > 0 {
        heads_in_order(a, q, keys, values, size, scale, heads, n - 1);
        let before = heads_of(a, q, keys, values, size, scale, n - 1);
        let all = heads_of(a, q, keys, values, size, scale, n);
        window_bounds(heads, n - 1, size);
        assert forall|h: int, e: int| 0 <= h < n && 0 <= e < size implies #[trigger] all[head_place(
            h,
            size as int,
            e,
        )] == attention_of(
            a,
            q.subrange(h * size, (h + 1) * size),
            head_part(keys, h, size as int),
            head_part(values, h, size as int),
            scale,
        )[e] by {
            window_bounds(heads, h, size);
            if h < n - 1 {
                window_bounds((n - 1) as nat, h, size);
                assert(before[head_place(h, size as int, e)] == all[head_place(
                    h,
                    size as int,
                    e,
                )]);
            } else {
                assert(window(q, h, size as int) =~= q.subrange(h * size, (h + 1) * size));
                assert(crate::seq2seq::blocks::head_rows(keys, h, size as int) =~= head_part(
                    keys,
                    h,
                    size as int,
                ));
                assert(crate::seq2seq::blocks::head_rows(values, h, size as int) =~= head_part(
                    values,
                    h,
                    size as int,
                ));
            }
        }
    }
}

/// An attention block lets every head attend with its part of the query to the keys and values,
/// projects what the heads give, adds the row that came in, and norms the sum.
pub proof fn a_row_attends<A: Fn(Scalar) -> u32>(
    a: A,
    kernel: Kernel,
    block: AttentionView,
    heads: nat,
    x: Seq<u32>,
    keys: Seq<Seq<u32>>,
    values: Seq<Seq<u32>>,
)
    requires
        heads > 0,
        x.len() % heads == 0,
        block.q.b.len() == x.len(),
        block.o.b.len() == x.len(),
    ensures
        exists|out: Seq<u32>| #[trigger]
            attends(a, block.q.made(a, kernel, x), keys, values, heads, out) && attended_row(
                a,
                kernel,
                block,
                heads,
                x,
                keys,
                values,
            ) == layernorm_of(
                a,
                Seq::new(
                    x.len(),
                    |i: int| value(a, Scalar::Add(block.o.made(a, kernel, out)[i], x[i])),
                ),
                block.ln.w,
                block.ln.b,
            ),
{
    let q = block.q.made(a, kernel, x);
    let size = x.len() / heads;
    assert(q.len() == x.len()) by {
        product_length(a, kernel, block.q, x);
    }
    vstd::arithmetic::div_mod::lemma_fundamental_div_mod(x.len() as int, heads as int);
    let scale = crate::seq2seq::blocks::head_scale(a, size as usize);
    let out = heads_of(a, q, keys, values, size, scale, heads as int);
    heads_in_order(a, q, keys, values, size, scale, heads, heads as int);
    assert(attends(a, q, keys, values, heads, out));
    product_length(a, kernel, block.o, out);
    assert(added(a, block.o.made(a, kernel, out), x) =~= Seq::new(
        x.len(),
        |i: int| value(a, Scalar::Add(block.o.made(a, kernel, out)[i], x[i])),
    ));
}

/// A linear layer gives as many elements as its bias has.
proof fn product_length<A: Fn(Scalar) -> u32>(a: A, kernel: Kernel, lin: LinearView, x: Seq<u32>)
    ensures
        lin.made(a, kernel, x).len() == lin.b.len(),
{
}

/// A feed-forward block goes up, activates every element, goes down, adds the row that came in, and
/// norms the sum.
pub proof fn a_row_is_fed_forward<A: Fn(Scalar) -> u32>(
    a: A,
    c: Config,
    kernel: Kernel,
    block: FeedForwardView,
    x: Seq<u32>,
    hidden: Seq<u32>,
)
    requires
        block.down.b.len() == x.len(),
        hidden.len() == block.up.b.len(),
        forall|j: int|
            0 <= j < hidden.len() ==> #[trigger] hidden[j] == activation_of(
                a,
                c.activation,
                block.up.made(a, kernel, x)[j],
            ),
    ensures
        after_feed_forward(a, c, kernel, block, x) == layernorm_of(
            a,
            Seq::new(
                x.len(),
                |i: int| value(a, Scalar::Add(block.down.made(a, kernel, hidden)[i], x[i])),
            ),
            block.ln.w,
            block.ln.b,
        ),
{
    product_length(a, kernel, block.up, x);
    assert(all_activated(a, c.activation, block.up.made(a, kernel, x)) =~= hidden);
    product_length(a, kernel, block.down, hidden);
    assert(added(a, fed_forward(a, kernel, block, c.activation, x), x) =~= Seq::new(
        x.len(),
        |i: int| value(a, Scalar::Add(block.down.made(a, kernel, hidden)[i], x[i])),
    ));
}

/// An encoder layer takes every row through its attention block, with the keys and values that the
/// block makes of all rows, before and behind, and then through its feed-forward block.
pub proof fn encoder_rows_see_all_rows<A: Fn(Scalar) -> u32>(
    a: A,
    c: Config,
    kernel: Kernel,
    att: AttentionView,
    ffn: FeedForwardView,
    x: Seq<Seq<u32>>,
    keys: Seq<Seq<u32>>,
    values: Seq<Seq<u32>>,
    t: int,
)
    requires
        0 <= t < x.len(),
        x[t].len() == c.d_model,
        keys.len() == x.len(),
        values.len() == x.len(),
        forall|u: int| 0 <= u < x.len() ==> #[trigger] keys[u] == att.k.made(a, kernel, x[u]),
        forall|u: int| 0 <= u < x.len() ==> #[trigger] values[u] == att.v.made(a, kernel, x[u]),
    ensures
        after_encoder_layer(a, c, kernel, att, ffn, x).len() == x.len(),
        after_encoder_layer(a, c, kernel, att, ffn, x)[t] == after_feed_forward(
            a,
            c,
            kernel,
            ffn,
            attended_row(a, kernel, att, c.enc_heads as nat, x[t], keys, values),
        ),
{
    assert(rows_made(a, kernel, att.k, x) =~= keys);
    assert(rows_made(a, kernel, att.v, x) =~= values);
}

/// A decoder layer's attention to itself stores the key and the value that it makes of the row
/// that comes in, in the place of this layer and position, and attends to what is stored for this
/// layer up to this position.
pub proof fn decoder_rows_see_the_past<A: Fn(Scalar) -> u32>(
    a: A,
    c: Config,
    kernel: Kernel,
    block: AttentionView,
    l: int,
    pos: int,
    room: nat,
    f: Flow,
    keys: Seq<Seq<u32>>,
    values: Seq<Seq<u32>>,
)
    requires
        0 <= l < c.dec_layers,
        0 <= pos < room,
        block.k.b.len() == c.d_model,
        block.v.b.len() == c.d_model,
        f.keys.len() == c.dec_layers * (room * c.d_model),
        f.values.len() == c.dec_layers * (room * c.d_model),
        keys.len() == pos + 1,
        values.len() == pos + 1,
        keys[pos] == block.k.made(a, kernel, f.x),
        values[pos] == block.v.made(a, kernel, f.x),
        forall|t: int|
            0 <= t < pos ==> #[trigger] keys[t] == f.keys.subrange(
                (l * room + t) * c.d_model,
                (l * room + t + 1) * c.d_model,
            ),
        forall|t: int|
            0 <= t < pos ==> #[trigger] values[t] == f.values.subrange(
                (l * room + t) * c.d_model,
                (l * room + t + 1) * c.d_model,
            ),
    ensures
        after_self(a, c, kernel, block, l, pos, f).x == attended_row(
            a,
            kernel,
            block,
            c.dec_heads as nat,
            f.x,
            keys,
            values,
        ),
        after_self(a, c, kernel, block, l, pos, f).keys.subrange(
            (l * room + pos) * c.d_model,
            (l * room + pos + 1) * c.d_model,
        ) == block.k.made(a, kernel, f.x),
        after_self(a, c, kernel, block, l, pos, f).values.subrange(
            (l * room + pos) * c.d_model,
            (l * room + pos + 1) * c.d_model,
        ) == block.v.made(a, kernel, f.x),
{
    let d = c.d_model as nat;
    let out = after_self(a, c, kernel, block, l, pos, f);
    product_length(a, kernel, block.k, f.x);
    product_length(a, kernel, block.v, f.x);
    stored_rows(c, l, pos, room, f.keys, block.k.made(a, kernel, f.x), keys);
    stored_rows(c, l, pos, room, f.values, block.v.made(a, kernel, f.x), values);
}

/// The rows of a layer up to a position, once that position is stored.
proof fn stored_rows(
    c: Config,
    l: int,
    pos: int,
    room: nat,
    cache: Seq<u32>,
    new: Seq<u32>,
    past: Seq<Seq<u32>>,
)
    requires
        0 <= l < c.dec_layers,
        0 <= pos < room,
        new.len() == c.d_model,
        cache.len() == c.dec_layers * (room * c.d_model),
        past.len() == pos + 1,
        past[pos] == new,
        forall|t: int|
            0 <= t < pos ==> #[trigger] past[t] == cache.subrange(
                (l * room + t) * c.d_model,
                (l * room + t + 1) * c.d_model,
            ),
    ensures
        ({
            let at = crate::seq2seq::decoder::cache_row(cache, c, l, pos);
            let after = written(cache, at, new);
            &&& at == (l * room + pos) * c.d_model
            &&& rows(layer_block(after, c, l), c.d_model as nat, (pos + 1) as nat) == past
            &&& after.subrange((l * room + pos) * c.d_model, (l * room + pos + 1) * c.d_model)
                == new
        }),
{
    let d = c.d_model as nat;
    let n = c.dec_layers as nat;
    let at = crate::seq2seq::decoder::cache_row(cache, c, l, pos);
    let after = written(cache, at, new);
    let per = room * d;
    assert(cache.len() == per * n) by (nonlinear_arith)
        requires
            cache.len() == n * per,
    ;
    vstd::arithmetic::div_mod::lemma_div_multiples_vanish(per as int, n as int);
    assert(per * n == n * per) by (nonlinear_arith);
    assert(crate::seq2seq::decoder::stride(cache, c) == per);
    window_bounds(n, l, per);
    window_bounds(room, pos, d);
    assert(at == (l * room + pos) * d) by (nonlinear_arith)
        requires
            at == l * per + pos * d,
            per == room * d,
    ;
    assert((l * room + pos + 1) * d == (l * room + pos) * d + d) by (nonlinear_arith);
    assert(after.len() == cache.len());
    assert(after.subrange(at, at + d) =~= new);
    let got = rows(layer_block(after, c, l), d, (pos + 1) as nat);
    assert forall|t: int| 0 <= t <= pos implies #[trigger] got[t] == past[t] by {
        window_bounds(room, t, d);
        assert((l * room + t) * d == l * per + t * d) by (nonlinear_arith)
            requires
                per == room * d,
        ;
        assert((l * room + t + 1) * d == (l * room + t) * d + d) by (nonlinear_arith);
        assert(got[t] =~= after.subrange((l * room + t) * d, (l * room + t) * d + d));
        if t < pos {
            assert(t * d + d <= pos * d) by (nonlinear_arith)
                requires
                    t < pos,
            ;
            assert(after.subrange((l * room + t) * d, (l * room + t) * d + d) =~= cache.subrange(
                (l * room + t) * d,
                (l * room + t) * d + d,
            ));
        }
    }
    assert(got =~= past);
}

/// A decoder layer's attention to the source attends to the keys and values that are stored for
/// this layer of every row of the source.
pub proof fn decoder_rows_see_the_source<A: Fn(Scalar) -> u32>(
    a: A,
    c: Config,
    kernel: Kernel,
    block: AttentionView,
    l: int,
    src_len: nat,
    room: nat,
    cross_k: Seq<u32>,
    cross_v: Seq<u32>,
    x: Seq<u32>,
    keys: Seq<Seq<u32>>,
    values: Seq<Seq<u32>>,
)
    requires
        0 <= l < c.dec_layers,
        src_len <= room,
        cross_k.len() == c.dec_layers * (room * c.d_model),
        cross_v.len() == c.dec_layers * (room * c.d_model),
        keys.len() == src_len,
        values.len() == src_len,
        forall|t: int|
            0 <= t < src_len ==> #[trigger] keys[t] == cross_k.subrange(
                (l * room + t) * c.d_model,
                (l * room + t + 1) * c.d_model,
            ),
        forall|t: int|
            0 <= t < src_len ==> #[trigger] values[t] == cross_v.subrange(
                (l * room + t) * c.d_model,
                (l * room + t + 1) * c.d_model,
            ),
    ensures
        after_cross(a, c, kernel, block, l, src_len, cross_k, cross_v, x) == attended_row(
            a,
            kernel,
            block,
            c.dec_heads as nat,
            x,
            keys,
            values,
        ),
{
    source_rows_of(c, l, src_len, room, cross_k, keys);
    source_rows_of(c, l, src_len, room, cross_v, values);
}

/// The rows of a layer of a cache.
proof fn source_rows_of(
    c: Config,
    l: int,
    n: nat,
    room: nat,
    cache: Seq<u32>,
    past: Seq<Seq<u32>>,
)
    requires
        0 <= l < c.dec_layers,
        n <= room,
        cache.len() == c.dec_layers * (room * c.d_model),
        past.len() == n,
        forall|t: int|
            0 <= t < n ==> #[trigger] past[t] == cache.subrange(
                (l * room + t) * c.d_model,
                (l * room + t + 1) * c.d_model,
            ),
    ensures
        rows(layer_block(cache, c, l), c.d_model as nat, n) == past,
{
    let d = c.d_model as nat;
    let layers = c.dec_layers as nat;
    let per = room * d;
    vstd::arithmetic::div_mod::lemma_div_multiples_vanish(per as int, layers as int);
    assert(layers * per == per * layers) by (nonlinear_arith);
    assert(crate::seq2seq::decoder::stride(cache, c) == per);
    window_bounds(layers, l, per);
    let got = rows(layer_block(cache, c, l), d, n);
    assert forall|t: int| 0 <= t < n implies #[trigger] got[t] == past[t] by {
        window_bounds(room, t, d);
        assert((l * room + t) * d == l * per + t * d) by (nonlinear_arith)
            requires
                per == room * d,
        ;
        assert((l * room + t + 1) * d == (l * room + t) * d + d) by (nonlinear_arith);
        assert(got[t] =~= past[t]);
    }
    assert(got =~= past);
}

/// One more decoder layer is its attention to itself, its attention to the source and its
/// feed-forward block, on what the layers before it leave, each with that layer's own weights.
pub proof fn decoder_layers_run_in_order<A: Fn(Scalar) -> u32>(
    a: A,
    c: Config,
    w: ModelWeights<'_>,
    k: KeptWeights<'_, u32>,
    kernel: Kernel,
    pos: int,
    src_len: nat,
    cross_k: Seq<u32>,
    cross_v: Seq<u32>,
    f: Flow,
    l: int,
)
    requires
        0 <= l,
    ensures
        after_decoder_layers(a, c, w, k, kernel, pos, src_len, cross_k, cross_v, f, 0) == f,
        ({
            let before = after_decoder_layers(
                a,
                c,
                w,
                k,
                kernel,
                pos,
                src_len,
                cross_k,
                cross_v,
                f,
                l,
            );
            let own = after_self(a, c, kernel, self_attention(w, k, c, l), l, pos, before);
            let crossed = after_cross(
                a,
                c,
                kernel,
                cross_attention(w, k, c, l),
                l,
                src_len,
                cross_k,
                cross_v,
                own.x,
            );
            let after = after_decoder_layers(
                a,
                c,
                w,
                k,
                kernel,
                pos,
                src_len,
                cross_k,
                cross_v,
                f,
                l + 1,
            );
            &&& after.keys == own.keys
            &&& after.values == own.values
            &&& after.x == after_feed_forward(
                a,
                c,
                kernel,
                decoder_feed_forward(w, k, c, l),
                crossed,
            )
        }),
{
}

/// One more encoder layer works on what the layers before it leave, with that layer's own weights;
/// before the first layer the rows are the tokens, each at its own position, and what is encoded is
/// what the last layer leaves.
pub proof fn encoder_layers_run_in_order<A: Fn(Scalar) -> u32>(
    a: A,
    c: Config,
    w: ModelWeights<'_>,
    k: KeptWeights<'_, u32>,
    kernel: Kernel,
    x: Seq<Seq<u32>>,
    tokens: Seq<usize>,
    l: int,
    t: int,
)
    requires
        0 <= l,
        0 <= t < tokens.len(),
    ensures
        after_encoder_layers(a, c, w, k, kernel, x, 0) == x,
        after_encoder_layers(a, c, w, k, kernel, x, l + 1) == after_encoder_layer(
            a,
            c,
            kernel,
            encoder_attention(w, k, c, l),
            encoder_feed_forward(w, k, c, l),
            after_encoder_layers(a, c, w, k, kernel, x, l),
        ),
        encoded(a, c, w, k, kernel, tokens) == after_encoder_layers(
            a,
            c,
            w,
            k,
            kernel,
            source_rows(a, c, w, tokens),
            c.enc_layers as int,
        ),
        source_rows(a, c, w, tokens).len() == tokens.len(),
        source_rows(a, c, w, tokens)[t] == input_row(a, c, w, tokens[t] as int, t),
{
}

/// The caches for the attention to the source hold, for every layer and every row of the source, the
/// rows of that layer of the cross-attention's key and value tensors times the row, and their biases.
pub proof fn caches_hold_the_source<A: Fn(Scalar) -> u32>(
    a: A,
    c: Config,
    w: ModelWeights<'_>,
    k: KeptWeights<'_, u32>,
    kernel: Kernel,
    source: Seq<Seq<u32>>,
    cross_k: Seq<u32>,
    cross_v: Seq<u32>,
    room: nat,
    l: int,
    t: int,
    i: int,
)
    requires
        w.fits(c),
        kept_fits(k, c),
        0 <= l < c.dec_layers,
        0 <= t < source.len(),
        source.len() <= room,
        0 <= i < c.d_model,
        source[t].len() == c.d_model,
        cross_k.len() == c.dec_layers * (room * c.d_model),
        cross_v.len() == c.dec_layers * (room * c.d_model),
        holds_keys(a, c, w, k, kernel, source, cross_k, c.dec_layers as int),
        holds_values(a, c, w, k, kernel, source, cross_v, c.dec_layers as int),
    ensures
        cross_k[(l * room + t) * c.d_model + i] == affine(
            a,
            kernel,
            dec_cross_wk(w),
            k.dec_cross_bk@,
            l * c.d_model + i,
            source[t],
        ),
        cross_v[(l * room + t) * c.d_model + i] == affine(
            a,
            kernel,
            dec_cross_wv(w),
            k.dec_cross_bv@,
            l * c.d_model + i,
            source[t],
        ),
{
    cross_attention_uses_its_tensors(a, c, w, k, kernel, l, source[t], i);
    cached_element(c, l, source.len(), room, cross_k, t, i);
    cached_element(c, l, source.len(), room, cross_v, t, i);
    let block = cross_attention(w, k, c, l);
    assert(rows(layer_block(cross_k, c, l), c.d_model as nat, source.len()) == rows_made(
        a,
        kernel,
        block.k,
        source,
    ));
    assert(rows(layer_block(cross_v, c, l), c.d_model as nat, source.len()) == rows_made(
        a,
        kernel,
        block.v,
        source,
    ));
    assert(rows_made(a, kernel, block.k, source)[t] == block.k.made(a, kernel, source[t]));
    assert(rows_made(a, kernel, block.v, source)[t] == block.v.made(a, kernel, source[t]));
}

/// An element of a row of a layer of a cache.
proof fn cached_element(c: Config, l: int, n: nat, room: nat, cache: Seq<u32>, t: int, i: int)
    requires
        0 <= l < c.dec_layers,
        0 <= t < n <= room,
        0 <= i < c.d_model,
        cache.len() == c.dec_layers * (room * c.d_model),
    ensures
        rows(layer_block(cache, c, l), c.d_model as nat, n)[t][i] == cache[(l * room + t)
            * c.d_model + i],
{
    let d = c.d_model as nat;
    let past = Seq::new(
        n,
        |u: int| cache.subrange((l * room + u) * c.d_model, (l * room + u + 1) * c.d_model),
    );
    source_rows_of(c, l, n, room, cache, past);
    let layers = c.dec_layers as nat;
    window_bounds(layers, l, room * d);
    window_bounds(room, t, d);
    assert((l * room + t) * d == l * (room * d) + t * d) by (nonlinear_arith);
    assert((l * room + t + 1) * d == (l * room + t) * d + d) by (nonlinear_arith);
    assert(past[t][i] == cache[(l * room + t) * d + i]);
}

} // verus!
