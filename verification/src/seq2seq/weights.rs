//! Zero-copy views into a seq2seq checkpoint's weight region.
//!
//! After the header a checkpoint stores every tensor back to back in a fixed order, flat
//! across layers. Matrices are row-major `[d_out, d_in]`. One embedding table serves the
//! encoder input, the decoder input, and the tied output projection; position
//! embeddings are computed at run time and not stored.

use vstd::arithmetic::overflow::CheckedUsize;
use vstd::prelude::*;

use crate::error::EngineError;
#[allow(unused_imports)]
use crate::layout::{offset, part, total, true_lens};
use crate::layout::{check_region, cut_part, product, product3, total_checked};
#[allow(unused_imports)]
use crate::layout::short_region;
use crate::llama::weights::F32_BYTES;
use crate::seq2seq::config::{Config, SEQ2SEQ_HEADER_BYTES};

verus! {

/// Lengths of the tensors in file order, as the fields of [`Weights`] list them.
pub open spec fn weight_lens(c: Config) -> Seq<nat> {
    let d = c.d_model as nat;
    let le = c.enc_layers as nat;
    let ld = c.dec_layers as nat;
    let fe = c.enc_ffn as nat;
    let fd = c.dec_ffn as nat;
    let vocab = c.vocab_size as nat;
    seq![
        vocab * d,
        le * d * d,
        le * d,
        le * d * d,
        le * d,
        le * d * d,
        le * d,
        le * d * d,
        le * d,
        le * d,
        le * d,
        le * fe * d,
        le * fe,
        le * d * fe,
        le * d,
        le * d,
        le * d,
        ld * d * d,
        ld * d,
        ld * d * d,
        ld * d,
        ld * d * d,
        ld * d,
        ld * d * d,
        ld * d,
        ld * d,
        ld * d,
        ld * d * d,
        ld * d,
        ld * d * d,
        ld * d,
        ld * d * d,
        ld * d,
        ld * d * d,
        ld * d,
        ld * d,
        ld * d,
        ld * fd * d,
        ld * fd,
        ld * d * fd,
        ld * d,
        ld * d,
        ld * d,
        vocab,
    ]
}

/// Elements of an attention block of one layer: four projections with their biases, and
/// the sublayer's LayerNorm.
pub open spec fn attention_block(c: Config) -> nat {
    let d = c.d_model as nat;
    4 * (d * d) + 6 * d
}

/// Elements of a feed-forward block of one layer: two projections with their biases, and
/// the sublayer's LayerNorm.
pub open spec fn ffn_block(c: Config, ffn: nat) -> nat {
    let d = c.d_model as nat;
    2 * (ffn * d) + ffn + 3 * d
}

/// Lengths of the tensors in file order, kept exact beyond the machine's range.
fn weight_lens_checked(c: &Config) -> (r: [CheckedUsize; 44])
    ensures
        true_lens(r@) == weight_lens(*c),
{
    let r = [
        product(c.vocab_size, c.d_model),
        product3(c.enc_layers, c.d_model, c.d_model),
        product(c.enc_layers, c.d_model),
        product3(c.enc_layers, c.d_model, c.d_model),
        product(c.enc_layers, c.d_model),
        product3(c.enc_layers, c.d_model, c.d_model),
        product(c.enc_layers, c.d_model),
        product3(c.enc_layers, c.d_model, c.d_model),
        product(c.enc_layers, c.d_model),
        product(c.enc_layers, c.d_model),
        product(c.enc_layers, c.d_model),
        product3(c.enc_layers, c.enc_ffn, c.d_model),
        product(c.enc_layers, c.enc_ffn),
        product3(c.enc_layers, c.d_model, c.enc_ffn),
        product(c.enc_layers, c.d_model),
        product(c.enc_layers, c.d_model),
        product(c.enc_layers, c.d_model),
        product3(c.dec_layers, c.d_model, c.d_model),
        product(c.dec_layers, c.d_model),
        product3(c.dec_layers, c.d_model, c.d_model),
        product(c.dec_layers, c.d_model),
        product3(c.dec_layers, c.d_model, c.d_model),
        product(c.dec_layers, c.d_model),
        product3(c.dec_layers, c.d_model, c.d_model),
        product(c.dec_layers, c.d_model),
        product(c.dec_layers, c.d_model),
        product(c.dec_layers, c.d_model),
        product3(c.dec_layers, c.d_model, c.d_model),
        product(c.dec_layers, c.d_model),
        product3(c.dec_layers, c.d_model, c.d_model),
        product(c.dec_layers, c.d_model),
        product3(c.dec_layers, c.d_model, c.d_model),
        product(c.dec_layers, c.d_model),
        product3(c.dec_layers, c.d_model, c.d_model),
        product(c.dec_layers, c.d_model),
        product(c.dec_layers, c.d_model),
        product(c.dec_layers, c.d_model),
        product3(c.dec_layers, c.dec_ffn, c.d_model),
        product(c.dec_layers, c.dec_ffn),
        product3(c.dec_layers, c.d_model, c.dec_ffn),
        product(c.dec_layers, c.d_model),
        product(c.dec_layers, c.d_model),
        product(c.dec_layers, c.d_model),
        CheckedUsize::new(c.vocab_size),
    ];
    proof {
        assert(true_lens(r@) =~= weight_lens(*c));
    }
    r
}

/// The number of elements after the header, kept exact beyond the machine's range.
fn weight_floats_checked(c: &Config) -> (r: CheckedUsize)
    ensures
        r@ == total(weight_lens(*c)),
{
    let lens = weight_lens_checked(c);
    total_checked(&lens)
}

/// Number of elements a checkpoint stores after its header.
pub fn weight_floats(c: &Config) -> (r: usize)
    requires
        total(weight_lens(*c)) <= usize::MAX,
    ensures
        r == total(weight_lens(*c)),
{
    weight_floats_checked(c).unwrap()
}

/// Bytes of a whole checkpoint.
pub open spec fn file_bytes(c: Config) -> nat {
    SEQ2SEQ_HEADER_BYTES as nat + total(weight_lens(c)) * F32_BYTES as nat
}

/// The size of a checkpoint in bytes, kept exact beyond the machine's range.
pub fn expected_file_bytes_checked(c: &Config) -> (r: CheckedUsize)
    ensures
        r@ == file_bytes(*c),
{
    weight_floats_checked(c).mul_value(F32_BYTES).add_value(SEQ2SEQ_HEADER_BYTES)
}

/// Total on-disk size of a checkpoint with this config, in bytes.
pub fn expected_file_bytes(c: &Config) -> (r: usize)
    requires
        file_bytes(*c) <= usize::MAX,
    ensures
        r == file_bytes(*c),
{
    expected_file_bytes_checked(c).unwrap()
}

/// Borrowed views of every weight tensor, each flat over all layers.
#[derive(Debug, Clone, Copy)]
pub struct Weights<'a, T> {
    /// Shared token embedding table, `[vocab, d]`.
    pub token_embedding: &'a [T],
    /// Encoder self-attention query projection, `[enc_layers, d, d]`.
    pub enc_wq: &'a [T],
    /// Encoder self-attention query bias, `[enc_layers, d]`.
    pub enc_bq: &'a [T],
    /// Encoder self-attention key projection, `[enc_layers, d, d]`.
    pub enc_wk: &'a [T],
    /// Encoder self-attention key bias, `[enc_layers, d]`.
    pub enc_bk: &'a [T],
    /// Encoder self-attention value projection, `[enc_layers, d, d]`.
    pub enc_wv: &'a [T],
    /// Encoder self-attention value bias, `[enc_layers, d]`.
    pub enc_bv: &'a [T],
    /// Encoder self-attention output projection, `[enc_layers, d, d]`.
    pub enc_wo: &'a [T],
    /// Encoder self-attention output bias, `[enc_layers, d]`.
    pub enc_bo: &'a [T],
    /// Encoder self-attention LayerNorm weight, `[enc_layers, d]`.
    pub enc_ln_att_w: &'a [T],
    /// Encoder self-attention LayerNorm bias, `[enc_layers, d]`.
    pub enc_ln_att_b: &'a [T],
    /// Encoder FFN up projection, `[enc_layers, enc_ffn, d]`.
    pub enc_fc1_w: &'a [T],
    /// Encoder FFN up bias, `[enc_layers, enc_ffn]`.
    pub enc_fc1_b: &'a [T],
    /// Encoder FFN down projection, `[enc_layers, d, enc_ffn]`.
    pub enc_fc2_w: &'a [T],
    /// Encoder FFN down bias, `[enc_layers, d]`.
    pub enc_fc2_b: &'a [T],
    /// Encoder FFN LayerNorm weight, `[enc_layers, d]`.
    pub enc_ln_ffn_w: &'a [T],
    /// Encoder FFN LayerNorm bias, `[enc_layers, d]`.
    pub enc_ln_ffn_b: &'a [T],
    /// Decoder self-attention query projection, `[dec_layers, d, d]`.
    pub dec_wq: &'a [T],
    /// Decoder self-attention query bias, `[dec_layers, d]`.
    pub dec_bq: &'a [T],
    /// Decoder self-attention key projection, `[dec_layers, d, d]`.
    pub dec_wk: &'a [T],
    /// Decoder self-attention key bias, `[dec_layers, d]`.
    pub dec_bk: &'a [T],
    /// Decoder self-attention value projection, `[dec_layers, d, d]`.
    pub dec_wv: &'a [T],
    /// Decoder self-attention value bias, `[dec_layers, d]`.
    pub dec_bv: &'a [T],
    /// Decoder self-attention output projection, `[dec_layers, d, d]`.
    pub dec_wo: &'a [T],
    /// Decoder self-attention output bias, `[dec_layers, d]`.
    pub dec_bo: &'a [T],
    /// Decoder self-attention LayerNorm weight, `[dec_layers, d]`.
    pub dec_ln_self_w: &'a [T],
    /// Decoder self-attention LayerNorm bias, `[dec_layers, d]`.
    pub dec_ln_self_b: &'a [T],
    /// Cross-attention query projection, `[dec_layers, d, d]`.
    pub dec_cross_wq: &'a [T],
    /// Cross-attention query bias, `[dec_layers, d]`.
    pub dec_cross_bq: &'a [T],
    /// Cross-attention key projection, `[dec_layers, d, d]`.
    pub dec_cross_wk: &'a [T],
    /// Cross-attention key bias, `[dec_layers, d]`.
    pub dec_cross_bk: &'a [T],
    /// Cross-attention value projection, `[dec_layers, d, d]`.
    pub dec_cross_wv: &'a [T],
    /// Cross-attention value bias, `[dec_layers, d]`.
    pub dec_cross_bv: &'a [T],
    /// Cross-attention output projection, `[dec_layers, d, d]`.
    pub dec_cross_wo: &'a [T],
    /// Cross-attention output bias, `[dec_layers, d]`.
    pub dec_cross_bo: &'a [T],
    /// Cross-attention LayerNorm weight, `[dec_layers, d]`.
    pub dec_ln_cross_w: &'a [T],
    /// Cross-attention LayerNorm bias, `[dec_layers, d]`.
    pub dec_ln_cross_b: &'a [T],
    /// Decoder FFN up projection, `[dec_layers, dec_ffn, d]`.
    pub dec_fc1_w: &'a [T],
    /// Decoder FFN up bias, `[dec_layers, dec_ffn]`.
    pub dec_fc1_b: &'a [T],
    /// Decoder FFN down projection, `[dec_layers, d, dec_ffn]`.
    pub dec_fc2_w: &'a [T],
    /// Decoder FFN down bias, `[dec_layers, d]`.
    pub dec_fc2_b: &'a [T],
    /// Decoder FFN LayerNorm weight, `[dec_layers, d]`.
    pub dec_ln_ffn_w: &'a [T],
    /// Decoder FFN LayerNorm bias, `[dec_layers, d]`.
    pub dec_ln_ffn_b: &'a [T],
    /// Bias added to the logits, `[vocab]`.
    pub final_logits_bias: &'a [T],
}

impl<'a, T: Copy> Weights<'a, T> {
    /// The tensors in file order.
    pub open spec fn tensors(self) -> Seq<Seq<T>> {
        seq![
            self.token_embedding@,
            self.enc_wq@,
            self.enc_bq@,
            self.enc_wk@,
            self.enc_bk@,
            self.enc_wv@,
            self.enc_bv@,
            self.enc_wo@,
            self.enc_bo@,
            self.enc_ln_att_w@,
            self.enc_ln_att_b@,
            self.enc_fc1_w@,
            self.enc_fc1_b@,
            self.enc_fc2_w@,
            self.enc_fc2_b@,
            self.enc_ln_ffn_w@,
            self.enc_ln_ffn_b@,
            self.dec_wq@,
            self.dec_bq@,
            self.dec_wk@,
            self.dec_bk@,
            self.dec_wv@,
            self.dec_bv@,
            self.dec_wo@,
            self.dec_bo@,
            self.dec_ln_self_w@,
            self.dec_ln_self_b@,
            self.dec_cross_wq@,
            self.dec_cross_bq@,
            self.dec_cross_wk@,
            self.dec_cross_bk@,
            self.dec_cross_wv@,
            self.dec_cross_bv@,
            self.dec_cross_wo@,
            self.dec_cross_bo@,
            self.dec_ln_cross_w@,
            self.dec_ln_cross_b@,
            self.dec_fc1_w@,
            self.dec_fc1_b@,
            self.dec_fc2_w@,
            self.dec_fc2_b@,
            self.dec_ln_ffn_w@,
            self.dec_ln_ffn_b@,
            self.final_logits_bias@,
        ]
    }

    /// Whether every tensor has the shape that the config gives it.
    pub open spec fn shaped(self, c: Config) -> bool {
        forall|i: int|
            0 <= i < 44 ==> (#[trigger] self.tensors()[i]).len() == weight_lens(c)[i]
    }

    /// Carve the weight tensors out of the checkpoint's weight region.
    ///
    /// Fails with [`EngineError::SizeMismatch`] if the region is shorter than the
    /// config requires.
    #[verifier::rlimit(50)]
    pub fn new(floats: &'a [T], c: &Config) -> (r: Result<Weights<'a, T>, EngineError>)
        ensures
            ({
                let lens = weight_lens(*c);
                match r {
                    Ok(w) => {
                        &&& floats@.len() >= total(lens)
                        &&& forall|i: int|
                            0 <= i < 44 ==> #[trigger] w.tensors()[i] == part(floats@, lens, i)
                        &&& w.shaped(*c)
                    },
                    Err(e) => floats@.len() < total(lens) && e == short_region::<T>(
                        total(lens),
                        floats@.len(),
                    ),
                }
            }),
    {
        let lens = weight_lens_checked(c);
        check_region::<T>(&total_checked(&lens), floats.len())?;
        let mut at: usize = 0;
        let token_embedding = cut_part(floats, &lens, 0, &mut at);
        let enc_wq = cut_part(floats, &lens, 1, &mut at);
        let enc_bq = cut_part(floats, &lens, 2, &mut at);
        let enc_wk = cut_part(floats, &lens, 3, &mut at);
        let enc_bk = cut_part(floats, &lens, 4, &mut at);
        let enc_wv = cut_part(floats, &lens, 5, &mut at);
        let enc_bv = cut_part(floats, &lens, 6, &mut at);
        let enc_wo = cut_part(floats, &lens, 7, &mut at);
        let enc_bo = cut_part(floats, &lens, 8, &mut at);
        let enc_ln_att_w = cut_part(floats, &lens, 9, &mut at);
        let enc_ln_att_b = cut_part(floats, &lens, 10, &mut at);
        let enc_fc1_w = cut_part(floats, &lens, 11, &mut at);
        let enc_fc1_b = cut_part(floats, &lens, 12, &mut at);
        let enc_fc2_w = cut_part(floats, &lens, 13, &mut at);
        let enc_fc2_b = cut_part(floats, &lens, 14, &mut at);
        let enc_ln_ffn_w = cut_part(floats, &lens, 15, &mut at);
        let enc_ln_ffn_b = cut_part(floats, &lens, 16, &mut at);
        let dec_wq = cut_part(floats, &lens, 17, &mut at);
        let dec_bq = cut_part(floats, &lens, 18, &mut at);
        let dec_wk = cut_part(floats, &lens, 19, &mut at);
        let dec_bk = cut_part(floats, &lens, 20, &mut at);
        let dec_wv = cut_part(floats, &lens, 21, &mut at);
        let dec_bv = cut_part(floats, &lens, 22, &mut at);
        let dec_wo = cut_part(floats, &lens, 23, &mut at);
        let dec_bo = cut_part(floats, &lens, 24, &mut at);
        let dec_ln_self_w = cut_part(floats, &lens, 25, &mut at);
        let dec_ln_self_b = cut_part(floats, &lens, 26, &mut at);
        let dec_cross_wq = cut_part(floats, &lens, 27, &mut at);
        let dec_cross_bq = cut_part(floats, &lens, 28, &mut at);
        let dec_cross_wk = cut_part(floats, &lens, 29, &mut at);
        let dec_cross_bk = cut_part(floats, &lens, 30, &mut at);
        let dec_cross_wv = cut_part(floats, &lens, 31, &mut at);
        let dec_cross_bv = cut_part(floats, &lens, 32, &mut at);
        let dec_cross_wo = cut_part(floats, &lens, 33, &mut at);
        let dec_cross_bo = cut_part(floats, &lens, 34, &mut at);
        let dec_ln_cross_w = cut_part(floats, &lens, 35, &mut at);
        let dec_ln_cross_b = cut_part(floats, &lens, 36, &mut at);
        let dec_fc1_w = cut_part(floats, &lens, 37, &mut at);
        let dec_fc1_b = cut_part(floats, &lens, 38, &mut at);
        let dec_fc2_w = cut_part(floats, &lens, 39, &mut at);
        let dec_fc2_b = cut_part(floats, &lens, 40, &mut at);
        let dec_ln_ffn_w = cut_part(floats, &lens, 41, &mut at);
        let dec_ln_ffn_b = cut_part(floats, &lens, 42, &mut at);
        let final_logits_bias = cut_part(floats, &lens, 43, &mut at);
        Ok(
            Weights {
                token_embedding,
                enc_wq,
                enc_bq,
                enc_wk,
                enc_bk,
                enc_wv,
                enc_bv,
                enc_wo,
                enc_bo,
                enc_ln_att_w,
                enc_ln_att_b,
                enc_fc1_w,
                enc_fc1_b,
                enc_fc2_w,
                enc_fc2_b,
                enc_ln_ffn_w,
                enc_ln_ffn_b,
                dec_wq,
                dec_bq,
                dec_wk,
                dec_bk,
                dec_wv,
                dec_bv,
                dec_wo,
                dec_bo,
                dec_ln_self_w,
                dec_ln_self_b,
                dec_cross_wq,
                dec_cross_bq,
                dec_cross_wk,
                dec_cross_bk,
                dec_cross_wv,
                dec_cross_bv,
                dec_cross_wo,
                dec_cross_bo,
                dec_ln_cross_w,
                dec_ln_cross_b,
                dec_fc1_w,
                dec_fc1_b,
                dec_fc2_w,
                dec_fc2_b,
                dec_ln_ffn_w,
                dec_ln_ffn_b,
                final_logits_bias,
            },
        )
    }
}

/// The total of the tensors, by kind.
pub proof fn weights_by_kind(c: Config)
    ensures
        ({
            let d = c.d_model as nat;
            let le = c.enc_layers as nat;
            let ld = c.dec_layers as nat;
            let fe = c.enc_ffn as nat;
            let fd = c.dec_ffn as nat;
            let vocab = c.vocab_size as nat;
            total(weight_lens(c)) == vocab * d + vocab + 4 * (le * d * d) + 9 * (le * d) + le * fe * d
                + le * d * fe + le * fe + 8 * (ld * d * d) + 15 * (ld * d) + ld * fd * d + ld * d
                * fd + ld * fd
        }),
{
    reveal_with_fuel(offset, 45);
}

/// A checkpoint holds the embedding, two blocks per encoder layer, three blocks per
/// decoder layer, and the output bias.
pub proof fn weights_are_blocks(c: Config)
    ensures
        total(weight_lens(c)) == c.vocab_size as nat * c.d_model as nat + c.enc_layers as nat * (
        attention_block(c) + ffn_block(c, c.enc_ffn as nat)) + c.dec_layers as nat * (2
            * attention_block(c) + ffn_block(c, c.dec_ffn as nat)) + c.vocab_size as nat,
{
    let d = c.d_model as nat;
    let le = c.enc_layers as nat;
    let ld = c.dec_layers as nat;
    let fe = c.enc_ffn as nat;
    let fd = c.dec_ffn as nat;
    let vocab = c.vocab_size as nat;
    weights_by_kind(c);
    assert(le * d * d == le * (d * d)) by (nonlinear_arith);
    assert(ld * d * d == ld * (d * d)) by (nonlinear_arith);
    assert(le * fe * d == le * (fe * d)) by (nonlinear_arith);
    assert(ld * fd * d == ld * (fd * d)) by (nonlinear_arith);
    assert(le * d * fe == le * (fe * d)) by (nonlinear_arith);
    assert(ld * d * fd == ld * (fd * d)) by (nonlinear_arith);
    assert(le * (4 * (d * d) + 6 * d + (2 * (fe * d) + fe + 3 * d)) == 4 * (le * (d * d)) + 9 * (le
        * d) + 2 * (le * (fe * d)) + le * fe) by (nonlinear_arith);
    assert(ld * (2 * (4 * (d * d) + 6 * d) + (2 * (fd * d) + fd + 3 * d)) == 8 * (ld * (d * d))
        + 15 * (ld * d) + 2 * (ld * (fd * d)) + ld * fd) by (nonlinear_arith);
}

} // verus!
